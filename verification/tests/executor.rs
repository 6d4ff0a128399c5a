use curseforge::cli_loop::CtrlCState;
use curseforge::command::{parse_command, Command};
use curseforge::executor::{report_search, Next, Plan, Work};
use curseforge::models::{Mod, ModFile, ModLinks, ModLogo};
use curseforge::tokenizer::parse_quoted_args;

fn plan_of(line: &str) -> Plan {
    let command: Command = parse_command(&parse_quoted_args(line)).unwrap();
    Plan::new(&command)
}

fn shown(next: Next) -> String {
    match next {
        Next::Finished => "finished".to_string(),
        Next::Interrupted => "interrupted".to_string(),
        Next::Run(Work::ScanInstalled) => "scan".to_string(),
        Next::Run(Work::Search(filter)) => format!("search {}", filter),
        Next::Run(Work::ReportInvalid(entry)) => format!("invalid {}", entry),
        Next::Run(Work::AskInfo(id)) => format!("ask {}", id),
        Next::Run(Work::Download(id)) => format!("download {}", id),
    }
}

fn run(line: &str) -> Vec<String> {
    let mut plan = plan_of(line);
    let mut all = Vec::new();
    loop {
        let next = shown(plan.next(false));
        let last = next == "finished";
        all.push(next);
        if last {
            return all;
        }
    }
}

#[test]
fn fetch_asks_then_downloads_each_addon_in_order() {
    assert_eq!(
        run("get -i \"12, x,7\""),
        ["ask 12", "download 12", "invalid  x", "ask 7", "download 7", "finished"]
    );
}

#[test]
fn empty_list_is_one_invalid_entry_to_report() {
    assert_eq!(run("get --ids="), ["invalid ", "finished"]);
}

#[test]
fn view_and_search_are_one_piece_each() {
    assert_eq!(run("view"), ["scan", "finished"]);
    assert_eq!(run("search -f \"damage meter\""), ["search damage meter", "finished"]);
}

#[test]
fn commands_that_only_speak_have_no_work() {
    for line in ["init", "exit", "search", "get", "delete", "delete -i 4", "update", "update -a", "update -i 4"] {
        assert_eq!(run(line), ["finished"], "{}", line);
        assert_eq!(plan_of(line).remaining(), 0);
    }
}

#[test]
fn request_to_stop_ends_the_work_before_the_next_piece() {
    let mut plan = plan_of("get -i 12,7");
    assert_eq!(plan.remaining(), 4);
    assert_eq!(shown(plan.next(false)), "ask 12");
    assert_eq!(shown(plan.next(true)), "interrupted");
    assert_eq!(plan.remaining(), 3);
    assert_eq!(shown(plan.next(true)), "interrupted");
    assert_eq!(shown(plan.next(false)), "download 12");
    assert_eq!(plan.remaining(), 2);
}

#[test]
fn request_to_stop_before_the_first_piece_runs_nothing() {
    let mut plan = plan_of("view");
    assert_eq!(shown(plan.next(true)), "interrupted");
    assert_eq!(plan.remaining(), 1);
}

#[test]
fn request_after_the_last_piece_changes_nothing() {
    let mut plan = plan_of("view");
    assert_eq!(shown(plan.next(false)), "scan");
    assert_eq!(shown(plan.next(true)), "finished");
    assert_eq!(plan.remaining(), 0);
}

fn found_file(display_name: &str, versions: &[&str]) -> ModFile {
    ModFile {
        id: 6543210,
        game_id: 1,
        mod_id: 1,
        is_available: true,
        display_name: display_name.to_string(),
        file_name: format!("{}.zip", display_name),
        release_type: 1,
        file_status: 4,
        hashes: Vec::new(),
        file_date: String::new(),
        file_length: 0,
        download_count: 0,
        file_size_on_disk: 0,
        download_url: String::new(),
        game_versions: versions.iter().map(|v| v.to_string()).collect(),
        sortable_game_versions: Vec::new(),
        dependencies: Vec::new(),
        alternate_file_id: 0,
        is_server_pack: false,
        file_fingerprint: 0,
        modules: Vec::new(),
    }
}

fn found_addon(id: u32, name: &str, summary: &str, downloads: u32, files: Vec<ModFile>) -> Mod {
    Mod {
        screenshots: Vec::new(),
        id,
        game_id: 1,
        name: name.to_string(),
        slug: String::new(),
        links: ModLinks {
            website_url: String::new(),
            wiki_url: None,
            issues_url: None,
            source_url: None,
        },
        summary: summary.to_string(),
        status: 4,
        download_count: downloads,
        is_featured: false,
        primary_category_id: 0,
        categories: Vec::new(),
        class_id: 0,
        authors: Vec::new(),
        logo: ModLogo {
            id: 0,
            mod_id: id,
            title: String::new(),
            description: String::new(),
            thumbnail_url: String::new(),
            url: String::new(),
        },
        main_file_id: 0,
        latest_files: files,
        latest_files_indexes: Vec::new(),
        latest_early_access_files_indexes: Vec::new(),
        date_created: String::new(),
        date_modified: String::new(),
        date_released: String::new(),
        allow_mod_distribution: true,
        game_popularity_rank: 0,
        is_available: true,
        has_comments_enabled: false,
        thumbs_up_count: 0,
        featured_project_tag: 0,
    }
}

#[test]
fn search_report_names_what_was_found_then_shows_the_table() {
    let mods = vec![
        found_addon(
            409666,
            "Cell",
            "A nice raid frame addon inspired by CompactRaid, Grid2, Aptechka and VuhDo.",
            5_000_000,
            vec![found_file("Cell r250-release", &["11.0.2"])],
        ),
        found_addon(
            9,
            "A unit frame addon with a name that is far too long for its column",
            "Unit frames for Cell",
            12,
            Vec::new(),
        ),
    ];
    let texts = report_search(mods);
    assert_eq!(texts.len(), 3 + 7);
    assert_eq!(texts[0], "\nSearch Results (2 total):\n");
    assert_eq!(
        texts[1],
        "  - Cell (ID: 409666). About: A nice raid frame addon inspired by CompactRaid, Grid2, Aptechka and VuhDo.\n"
    );
    assert_eq!(
        texts[2],
        "  - A unit frame addon with a name that is far too long for its column (ID: 9). About: Unit frames for Cell\n"
    );
    assert!(texts[3].starts_with("|--------------|"));
    assert!(texts[4].contains("| Mod ID       | Name "));
    assert!(texts[6].contains("| 409666       | Cell "));
    assert!(texts[6].contains("| Grid2, Aptechka and VuhDo. "));
    assert!(texts[8].contains("| 9            | A unit frame addon with a name | "));
    assert!(texts[8].contains("\n|              | that is far too long for its   | "));
    assert!(texts[9].starts_with("|--------------|"));
    assert!(texts.iter().all(|text| text.ends_with('\n')));
}

#[test]
fn search_report_of_nothing_is_a_headline_and_an_empty_table() {
    let texts = report_search(Vec::new());
    assert_eq!(texts.len(), 4);
    assert_eq!(texts[0], "\nSearch Results (0 total):\n");
    assert!(texts[2].contains("| Summary "));
    assert_eq!(texts[1], texts[3]);
}

#[test]
fn plan_reads_the_request_from_the_state_of_the_prompt() {
    let mut state = CtrlCState::new();
    let mut plan = plan_of("get -i 5");
    state.command_started();
    assert_eq!(shown(plan.proceed(&state)), "ask 5");
    state.request_interrupt();
    assert_eq!(shown(plan.proceed(&state)), "interrupted");
    assert_eq!(plan.remaining(), 1);
    state.command_finished();
    assert_eq!(shown(plan.proceed(&state)), "download 5");
    assert_eq!(shown(plan.proceed(&state)), "finished");
}
