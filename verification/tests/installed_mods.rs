use curseforge::installed_mods::{
    changelog_lua_version, changelog_md_version, changelog_txt_version, find_id_by_name,
    first_with_name, is_manifest_name, parse_toc, preferred_version, title_from, ChangelogError,
    InstalledScan, TocError, Verdict,
};
use curseforge::mod_table::{ModRow, ModTable};
use curseforge::models::{Mod, ModLinks, ModLogo};

fn addon(id: u32, name: &str) -> Mod {
    Mod {
        screenshots: Vec::new(),
        id,
        game_id: 1,
        name: name.to_string(),
        slug: String::new(),
        links: ModLinks {
            website_url: String::new(),
            wiki_url: None,
            issues_url: None,
            source_url: None,
        },
        summary: String::new(),
        status: 4,
        download_count: 0,
        is_featured: false,
        primary_category_id: 0,
        categories: Vec::new(),
        class_id: 0,
        authors: Vec::new(),
        logo: ModLogo {
            id: 0,
            mod_id: id,
            title: String::new(),
            description: String::new(),
            thumbnail_url: String::new(),
            url: String::new(),
        },
        main_file_id: 0,
        latest_files: Vec::new(),
        latest_files_indexes: Vec::new(),
        latest_early_access_files_indexes: Vec::new(),
        date_created: String::new(),
        date_modified: String::new(),
        date_released: String::new(),
        allow_mod_distribution: true,
        game_popularity_rank: 0,
        is_available: true,
        has_comments_enabled: false,
        thumbs_up_count: 0,
        featured_project_tag: 0,
    }
}

const MANIFEST: &str = "## Interface: 110002\n## Title: |cff33ff99Cell|r\n## Version: r250-release\n## X-Curse-Project-ID: 409666\n## Notes: A raid frame addon\n\nCell.lua\n";

#[test]
fn manifest_names() {
    assert!(is_manifest_name("Cell", "Cell.toc"));
    assert!(is_manifest_name("Cell", "Cell_Mainline.toc"));
    assert!(!is_manifest_name("Cell", "Cell_Classic.toc"));
    assert!(!is_manifest_name("Cell", "cell.toc"));
    assert!(!is_manifest_name("Cell", "CHANGELOG.md"));
    assert!(is_manifest_name("", ".toc"));
}

#[test]
fn manifest_fields_are_read() {
    let info = parse_toc(MANIFEST).unwrap();
    assert_eq!(info.project_id, 409666);
    assert_eq!(info.title, "Cell");
    assert_eq!(info.version, "r250-release");
    assert_eq!(info.notes, "A raid frame addon");
    assert!(!info.declares_dependencies);
}

#[test]
fn title_loses_its_markup() {
    let info = parse_toc("## Title: [|cFFff8000Details!|r] Damage |cffffffffMeter|r\r\n").unwrap();
    assert_eq!(info.title, "Details! Damage Meter");
    let info = parse_toc("## Title: |cff12345").unwrap();
    assert_eq!(info.title, "|cff12345");
    let info = parse_toc("## Title: |cff123456|cx").unwrap();
    assert_eq!(info.title, "|cx");
}

#[test]
fn scan_of_one_directory_reports_one_entry() {
    let mut scan = InstalledScan::new();
    for (dir, file, content) in [
        ("Cell", "Cell.toc", MANIFEST),
        ("Cell", "Cell_Mainline.toc", MANIFEST),
        ("Cell", "Cell.lua", "print()"),
    ] {
        if !is_manifest_name(dir, file) {
            continue;
        }
        let info = parse_toc(content).unwrap();
        if scan.examine(&info) == Verdict::Add {
            scan.add(info.project_id, &info.title, &preferred_version("", &info.version), &info.notes);
        }
    }
    assert_eq!(scan.len(), 1);
    let rows = scan.into_rows();
    match &rows[0] {
        ModRow::Data { id, name, version, summary, download_count } => {
            assert_eq!(*id, 409666);
            assert_eq!(name, "Cell");
            assert_eq!(version, "r250-release");
            assert_eq!(summary, "A raid frame addon");
            assert_eq!(*download_count, 0);
        }
        other => panic!("{:?}", other),
    }
    let mut table = ModTable::new();
    table.populate_installed_mods_table(rows).unwrap();
    assert!(table.format_table()[3].starts_with("| 409666       | Cell "));
}

#[test]
fn later_declaration_wins_and_markers_are_removed_everywhere() {
    let info = parse_toc("## Version: 1\n## Version:  2 ## Version: beta \n").unwrap();
    assert_eq!(info.version, "2  beta");
    let info = parse_toc("## X-Curse-Project-ID: 12\n## X-Curse-Project-ID: x\n").unwrap();
    assert_eq!(info.project_id, 12);
    let info = parse_toc("## X-Curse-Project-ID: 12\n## X-Curse-Project-ID: 0\n").unwrap();
    assert_eq!(info.project_id, 12);
    let info = parse_toc("## X-Curse-Project-ID: 12\n## X-Curse-Project-ID: 13\n").unwrap();
    assert_eq!(info.project_id, 13);
    let info = parse_toc("## X-Curse-Project-ID: -4\n").unwrap();
    assert_eq!(info.project_id, 0);
    let info = parse_toc(" ## Title: indented\n##Title: tight\n").unwrap();
    assert_eq!(info.title, "");
}

#[test]
fn dependency_line_is_noted_and_reading_goes_on() {
    let info = parse_toc("## Title: Lib\n## RequiredDeps: Ace3\n## Version: 9\n").unwrap();
    assert!(info.declares_dependencies);
    assert_eq!(info.title, "Lib");
    assert_eq!(info.version, "9");
    let info = parse_toc("## Dependencies: Cell\n## X-Curse-Project-ID: 5").unwrap();
    assert!(info.declares_dependencies);
    assert_eq!(info.project_id, 5);
    assert!(!parse_toc("## OptionalDeps: Ace3\n").unwrap().declares_dependencies);
}

#[test]
fn project_named_after_a_dependency_line_is_added() {
    let mut scan = InstalledScan::new();
    scan.enter_directory();
    let named = parse_toc("## Dependencies: Cell\n## Title: Plugin\n## X-Curse-Project-ID: 5\n").unwrap();
    assert_eq!(scan.examine(&named), Verdict::Add);
    scan.enter_directory();
    let nameless = parse_toc("## Title: Lib\n## X-Curse-Project-ID: none\n## RequiredDeps: Ace3\n").unwrap();
    assert_eq!(scan.examine(&nameless), Verdict::SkipDependency);
}

#[test]
fn failed_replacement_is_a_pattern_error() {
    let compiled: Result<regex::Regex, regex::Error> = regex::Regex::new("(");
    let fault = compiled.map(|_| String::new());
    assert_eq!(title_from(fault), Err(TocError::ColorPattern));
    assert_eq!(title_from(Ok("Cell".to_string())), Ok("Cell".to_string()));
}

#[test]
fn scan_passes_over_dependencies_and_duplicates() {
    let mut scan = InstalledScan::new();
    scan.enter_directory();
    let plain = parse_toc("## Title: One\n## X-Curse-Project-ID: 1\n").unwrap();
    assert_eq!(scan.examine(&plain), Verdict::Add);
    assert!(scan.add(1, "One", "1.0", ""));
    assert_eq!(scan.examine(&plain), Verdict::SkipDuplicate);
    assert!(!scan.add(2, "One", "2.0", "again"));
    assert_eq!(scan.len(), 1);

    scan.enter_directory();
    let nameless = parse_toc("## Title: Two\n").unwrap();
    assert_eq!(scan.examine(&nameless), Verdict::LookUp);
    let library = parse_toc("## Title: Lib\n## Dependencies: One\n").unwrap();
    assert_eq!(scan.examine(&library), Verdict::SkipDependency);
    assert_eq!(scan.examine(&nameless), Verdict::SkipDependency);
    let named = parse_toc("## Title: Three\n## X-Curse-Project-ID: 3\n").unwrap();
    assert_eq!(scan.examine(&named), Verdict::Add);

    scan.enter_directory();
    assert_eq!(scan.examine(&nameless), Verdict::LookUp);
    assert!(scan.add(22, "Two", "", ""));
    assert!(scan.has_title("Two"));
    assert!(!scan.has_title("two"));
    assert_eq!(scan.len(), 2);
}

#[test]
fn preferred_version_is_the_change_log_where_there_is_one() {
    assert_eq!(preferred_version("2.1", "2.0"), "2.1");
    assert_eq!(preferred_version("", "2.0"), "2.0");
    assert_eq!(preferred_version("", ""), "");
}

#[test]
fn change_log_versions() {
    assert_eq!(changelog_md_version("# Log\n## [1.2.3] - 2024\n## [1.2.2]\n"), "1.2.3");
    assert_eq!(changelog_md_version("## [1.2[x]"), "1.2");
    assert_eq!(changelog_md_version("## [open"), "open");
    assert_eq!(changelog_md_version("## 1.2.3\n"), "");
    assert_eq!(changelog_txt_version("notes\n## v7 (today)\n"), Ok("v7".to_string()));
    assert_eq!(changelog_txt_version("##  spaced"), Ok(String::new()));
    assert_eq!(changelog_txt_version("##tight"), Err(ChangelogError::HeadingWithoutVersion));
    assert_eq!(changelog_txt_version("nothing here"), Ok(String::new()));
    assert_eq!(changelog_lua_version("-- log\nv.3.4.5\nv.3.4.4\n"), "3.4.5");
    assert_eq!(changelog_lua_version("v.1v.2v.3"), "1");
    assert_eq!(changelog_lua_version("version 1"), "");
}

#[test]
fn identifier_is_found_by_name_without_regard_to_case() {
    let mods = vec![addon(1, "Cell Unit Frames"), addon(2, "CELL"), addon(3, "Cell"), addon(4, "ÉCHO")];
    assert_eq!(find_id_by_name(&mods, "cell"), 2);
    assert_eq!(find_id_by_name(&mods, "Cell unit FRAMES"), 1);
    assert_eq!(find_id_by_name(&mods, "écho"), 4);
    assert_eq!(find_id_by_name(&mods, "Grid"), 0);
    assert_eq!(find_id_by_name(&Vec::new(), "Cell"), 0);
}

#[test]
fn first_with_name_compares_as_given() {
    let names = vec!["a".to_string(), "b".to_string(), "b".to_string()];
    assert_eq!(first_with_name(&vec![10, 20, 30], &names, "b"), 20);
    assert_eq!(first_with_name(&vec![10, 20, 30], &names, "B"), 0);
    assert_eq!(first_with_name(&vec![10], &names, "b"), 0);
}

#[test]
fn manifest_and_change_log_faults_say_what_is_wrong() {
    assert_eq!(TocError::ColorPattern.message(), "the pattern of the colour codes does not compile");
    assert_eq!(
        ChangelogError::HeadingWithoutVersion.message(),
        "the first heading of the change log names no version"
    );
}
