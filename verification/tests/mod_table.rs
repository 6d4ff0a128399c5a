use curseforge::mod_table::{ModRow, ModTable, TableError, LINE_WIDTH};
use curseforge::models::{Mod, ModFile, ModLinks, ModLogo};

const RULE: &str = "|--------------|--------------------------------|--------------------------------|----------------------------------------------------|----------------|";

fn file(display_name: &str, versions: &[&str]) -> ModFile {
    ModFile {
        id: 6543210,
        game_id: 1,
        mod_id: 1,
        is_available: true,
        display_name: display_name.to_string(),
        file_name: format!("{}.zip", display_name),
        release_type: 1,
        file_status: 4,
        hashes: Vec::new(),
        file_date: String::new(),
        file_length: 0,
        download_count: 0,
        file_size_on_disk: 0,
        download_url: String::new(),
        game_versions: versions.iter().map(|v| v.to_string()).collect(),
        sortable_game_versions: Vec::new(),
        dependencies: Vec::new(),
        alternate_file_id: 0,
        is_server_pack: false,
        file_fingerprint: 0,
        modules: Vec::new(),
    }
}

fn addon(id: u32, name: &str, summary: &str, downloads: u32, files: Vec<ModFile>) -> Mod {
    Mod {
        screenshots: Vec::new(),
        id,
        game_id: 1,
        name: name.to_string(),
        slug: String::new(),
        links: ModLinks {
            website_url: String::new(),
            wiki_url: None,
            issues_url: None,
            source_url: None,
        },
        summary: summary.to_string(),
        status: 4,
        download_count: downloads,
        is_featured: false,
        primary_category_id: 0,
        categories: Vec::new(),
        class_id: 0,
        authors: Vec::new(),
        logo: ModLogo {
            id: 0,
            mod_id: id,
            title: String::new(),
            description: String::new(),
            thumbnail_url: String::new(),
            url: String::new(),
        },
        main_file_id: 0,
        latest_files: files,
        latest_files_indexes: Vec::new(),
        latest_early_access_files_indexes: Vec::new(),
        date_created: String::new(),
        date_modified: String::new(),
        date_released: String::new(),
        allow_mod_distribution: true,
        game_popularity_rank: 0,
        is_available: true,
        has_comments_enabled: false,
        thumbs_up_count: 0,
        featured_project_tag: 0,
    }
}

fn line(id: &str, name: &str, version: &str, summary: &str, count: &str) -> String {
    format!("| {:<12} | {:<30} | {:<30} | {:<50} | {:<14} |", id, name, version, summary, count)
}

fn wrapped(text: &str, length: usize) -> Vec<String> {
    let words: Vec<Vec<char>> = text.split_whitespace().map(|w| w.chars().collect()).collect();
    let mut rows: Vec<Vec<char>> = vec![Vec::new()];
    ModRow::wrap_field_line(&words, &mut rows, length);
    rows.iter().map(|r| r.iter().collect()).collect()
}

#[test]
fn header_row_is_one_padded_line() {
    let row = ModRow::new_header("Mod ID", "Name", "Version/Display Name", "Summary", "Download Count");
    let text = row.format_row();
    assert_eq!(text, line("Mod ID", "Name", "Version/Display Name", "Summary", "Download Count"));
    assert_eq!(text.chars().count(), LINE_WIDTH);
    assert_eq!(RULE.len(), LINE_WIDTH);
}

#[test]
fn short_data_row_is_one_line() {
    let row = ModRow::new_data(1232053, "Cell", "r250", "Raid frames", 4200);
    assert_eq!(row.format_row(), line("1232053", "Cell", "r250", "Raid frames", "4200"));
}

#[test]
fn long_texts_wrap_onto_further_lines() {
    let summary = "A raid frame addon inspired by several other addons that came before it";
    let row = ModRow::new_data(7, "Cell", "Cell r250-release (retail and classic)", summary, 9);
    let expected = [
        line("7", "Cell", "Cell r250-release (retail and", "A raid frame addon inspired by several other", "9"),
        line("", "", "classic)", "addons that came before it", ""),
    ]
    .join("\n");
    assert_eq!(row.format_row(), expected);
}

#[test]
fn wrap_sets_words_by_their_bytes() {
    assert_eq!(wrapped("", 10), vec![""]);
    assert_eq!(wrapped("  hello   world  ", 30), vec!["hello world"]);
    assert_eq!(wrapped("aaaa bbbb cc", 10), vec!["aaaa bbbb", "cc"]);
    assert_eq!(wrapped("aaaa bbbbb", 10), vec!["aaaa bbbbb"]);
    assert_eq!(wrapped("aaaa bbbbbb", 10), vec!["aaaa", "bbbbbb"]);
    assert_eq!(wrapped("abcdefghijkl x", 10), vec!["", "abcdefghijkl", "x"]);
    assert_eq!(wrapped("abcdefghij x", 10), vec!["", "abcdefghij", "x"]);
    assert_eq!(wrapped("abcdefghi x", 10), vec!["abcdefghi", "x"]);
    assert_eq!(wrapped("ééé ééé", 10), vec!["ééé", "ééé"]);
    assert_eq!(wrapped("eee eee", 10), vec!["eee eee"]);
}

#[test]
fn wrap_without_a_first_row_starts_one() {
    let words: Vec<Vec<char>> = vec!["ab".chars().collect(), "cd".chars().collect()];
    let mut rows: Vec<Vec<char>> = Vec::new();
    ModRow::wrap_field_line(&words, &mut rows, 10);
    let rows: Vec<String> = rows.iter().map(|r| r.iter().collect()).collect();
    assert_eq!(rows, vec!["ab cd"]);
}

#[test]
fn wrapped_rows_fit_unless_they_are_one_word() {
    let text = "The quick brown fox jumps over the lazy dog and supercalifragilisticexpialidocious trips";
    for length in 1..40usize {
        for row in wrapped(text, length) {
            assert!(row.len() <= length || !row.contains(' '), "{:?} at {}", row, length);
        }
    }
}

#[test]
fn empty_table_is_one_rule() {
    let table = ModTable::new();
    assert_eq!(table.format_table(), vec![format!("{}\n", RULE)]);
}

#[test]
fn search_for_cell_renders_both_addons() {
    let mods = vec![
        addon(
            409666,
            "Cell",
            "A nice raid frame addon inspired by CompactRaid, Grid2, Aptechka and VuhDo.",
            5_000_000,
            vec![file("Cell r250-release", &["11.0.2"])],
        ),
        addon(9, "Cell Unit Frames", "Unit frames for Cell", 12, vec![file("v1.0", &["11.0.2"])]),
    ];
    let mut table = ModTable::new();
    assert_eq!(table.populate_mods_table(mods), Ok(()));
    let lines = table.format_table();
    assert_eq!(lines.len(), 7);
    let rule = format!("{}\n", RULE);
    assert_eq!(lines[0], rule);
    assert_eq!(lines[2], rule);
    assert_eq!(lines[4], rule);
    assert_eq!(lines[6], rule);
    assert_eq!(
        lines[1],
        format!("{}\n", line("Mod ID", "Name", "Version/Display Name", "Summary", "Download Count"))
    );
    assert_eq!(
        lines[3],
        format!(
            "{}\n{}\n",
            line("409666", "Cell", "Cell r250-release", "A nice raid frame addon inspired by CompactRaid,", "5000000"),
            line("", "", "", "Grid2, Aptechka and VuhDo.", "")
        )
    );
    assert_eq!(lines[5], format!("{}\n", line("9", "Cell Unit Frames", "v1.0", "Unit frames for Cell", "12")));
    for text in &lines {
        for shown in text.lines() {
            assert_eq!(shown.chars().count(), LINE_WIDTH);
            let cells: Vec<&str> = shown.split('|').collect();
            assert_eq!(cells.len(), 7);
            let widths: Vec<usize> = cells[1..6].iter().map(|c| c.chars().count()).collect();
            assert_eq!(widths, vec![14, 32, 32, 52, 16]);
        }
    }
}

#[test]
fn addon_without_a_file_shows_no_version() {
    let mods = vec![
        addon(1, "One", "first", 10, vec![file("a", &[])]),
        addon(2, "Two", "second", 20, Vec::new()),
        addon(3, "Three", "third", 30, vec![file("c", &[]), file("d", &[])]),
    ];
    let mut table = ModTable::new();
    table.add_row(ModRow::new_data(5, "Kept", "1", "", 0));
    assert_eq!(table.populate_mods_table(mods), Ok(()));
    let lines = table.format_table();
    assert_eq!(lines.len(), 1 + 2 * 5);
    assert_eq!(lines[1], format!("{}\n", line("5", "Kept", "1", "", "0")));
    assert!(lines[3].starts_with("| Mod ID "));
    assert_eq!(lines[5], format!("{}\n", line("1", "One", "a", "first", "10")));
    assert_eq!(lines[7], format!("{}\n", line("2", "Two", "", "second", "20")));
    assert_eq!(lines[9], format!("{}\n", line("3", "Three", "c", "third", "30")));
}

#[test]
fn installed_addons_are_ordered_by_name() {
    let rows = vec![
        ModRow::new_data(1, "WeakAuras", "5.0", "first", 0),
        ModRow::new_data(2, "Bagnon", "1.0", "second", 0),
        ModRow::new_data(3, "bagnon", "1.0", "third", 0),
        ModRow::new_data(4, "Bagnon", "2.0", "fourth", 0),
        ModRow::new_data(5, "Bag", "1.0", "fifth", 0),
        ModRow::new_data(6, "Écho", "1.0", "sixth", 0),
        ModRow::new_data(7, "", "1.0", "seventh", 0),
    ];
    let mut expected: Vec<(String, String)> = rows
        .iter()
        .map(|row| match row {
            ModRow::Data { name, summary, .. } => (name.clone(), summary.clone()),
            ModRow::Header { name, summary, .. } => (name.clone(), summary.clone()),
        })
        .collect();
    expected.sort_by_key(|(name, _)| name.clone());
    let mut table = ModTable::new();
    assert_eq!(table.populate_installed_mods_table(rows), Ok(()));
    let lines = table.format_table();
    assert_eq!(lines.len(), 1 + 2 * 8);
    assert!(lines[1].starts_with("| Mod ID "));
    for (k, (name, summary)) in expected.iter().enumerate() {
        let shown = &lines[3 + 2 * k];
        assert!(shown.contains(&format!("| {:<30} |", name)), "{} in {}", name, shown);
        assert!(shown.contains(&format!("| {:<50} |", summary)));
    }
    let order: Vec<&str> = expected.iter().map(|(_, s)| s.as_str()).collect();
    assert_eq!(order, vec!["seventh", "fifth", "second", "fourth", "first", "third", "sixth"]);
}

#[test]
fn table_fault_says_what_is_wrong() {
    assert_eq!(TableError {}.message(), "the table could not be filled");
}

#[test]
fn short_names_stand_in_their_lines_as_one_piece() {
    let names = ["Cell", "Cell Unit Frames", "Details! Damage Meter (classic)", "X"];
    let mods: Vec<Mod> = names
        .iter()
        .enumerate()
        .map(|(i, name)| addon(i as u32, name, "About it", 1, vec![file("v1", &["11.0.2"])]))
        .collect();
    let mut table = ModTable::new();
    assert_eq!(table.populate_mods_table(mods), Ok(()));
    let lines = table.format_table();
    assert_eq!(lines.len(), 2 * names.len() + 3);
    for (i, name) in names.iter().enumerate() {
        assert_eq!(lines[2 * i + 3].contains(name), name.len() < 30, "{}", name);
    }
}

#[test]
fn every_word_of_a_long_text_stands_in_the_row() {
    let name = "An addon with a name that does not fit into its column at all";
    let version = "release-2024-11-05-with-a-very-long-tag-that-is-one-word (retail)";
    let summary = "Shows what you need  and\tnothing else, whatever the size of the raid or the screen";
    let row = ModRow::new_data(3, name, version, summary, 4).format_row();
    for text in [name, version, summary] {
        for word in text.split_whitespace() {
            assert!(row.contains(word), "{}", word);
        }
    }
    assert!(!row.contains(name));
}
