use curseforge::game_version::{
    get_mod_file_for_game_version, version_file_path, version_from_build_info, version_from_file,
    version_from_info_plist, version_from_nodes, VersionError, XmlNode,
};
use curseforge::models::{Mod, ModFile, ModLinks, ModLogo};

fn file(id: u32, versions: &[&str]) -> ModFile {
    ModFile {
        id,
        game_id: 1,
        mod_id: 1,
        is_available: true,
        display_name: String::new(),
        file_name: String::new(),
        release_type: 1,
        file_status: 4,
        hashes: Vec::new(),
        file_date: String::new(),
        file_length: 0,
        download_count: 0,
        file_size_on_disk: 0,
        download_url: String::new(),
        game_versions: versions.iter().map(|v| v.to_string()).collect(),
        sortable_game_versions: Vec::new(),
        dependencies: Vec::new(),
        alternate_file_id: 0,
        is_server_pack: false,
        file_fingerprint: 0,
        modules: Vec::new(),
    }
}

fn addon(files: Vec<ModFile>) -> Mod {
    Mod {
        screenshots: Vec::new(),
        id: 1,
        game_id: 1,
        name: String::new(),
        slug: String::new(),
        links: ModLinks {
            website_url: String::new(),
            wiki_url: None,
            issues_url: None,
            source_url: None,
        },
        summary: String::new(),
        status: 4,
        download_count: 0,
        is_featured: false,
        primary_category_id: 0,
        categories: Vec::new(),
        class_id: 0,
        authors: Vec::new(),
        logo: ModLogo {
            id: 0,
            mod_id: 1,
            title: String::new(),
            description: String::new(),
            thumbnail_url: String::new(),
            url: String::new(),
        },
        main_file_id: 0,
        latest_files: files,
        latest_files_indexes: Vec::new(),
        latest_early_access_files_indexes: Vec::new(),
        date_created: String::new(),
        date_modified: String::new(),
        date_released: String::new(),
        allow_mod_distribution: true,
        game_popularity_rank: 0,
        is_available: true,
        has_comments_enabled: false,
        thumbs_up_count: 0,
        featured_project_tag: 0,
    }
}

fn node(is_element: bool, tag: &str, text: Option<&str>, next_sibling: Option<usize>) -> XmlNode {
    XmlNode { is_element, tag: tag.to_string(), text: text.map(|t| t.to_string()), next_sibling }
}

const PLIST: &str = "<?xml version=\"1.0\" encoding=\"UTF-8\"?>\n<!DOCTYPE plist PUBLIC \"-//Apple//DTD PLIST 1.0//EN\" \"http://www.apple.com/DTDs/PropertyList-1.0.dtd\">\n<plist version=\"1.0\">\n<dict>\n\t<key>CFBundleName</key>\n\t<string>World of Warcraft</string>\n\t<key>CFBundleShortVersionString</key>\n\t<!-- build -->\n\t<true/>\n\t<string>11.0.2</string>\n\t<key>Other</key>\n\t<string>x</string>\n</dict>\n</plist>\n";

#[test]
fn build_info_version_loses_its_build_number() {
    let content = "Branch!STRING:0 Active!DEC:1 Version!STRING:0 Product!STRING:0\nus 1 11.0.2.56421 wow\n";
    assert_eq!(version_from_build_info(content), Ok("11.0.2".to_string()));
}

#[test]
fn build_info_takes_the_first_row_that_reaches_the_column() {
    let content = "A B Version!STRING:0\r\nshort row\r\n\r\nx y 1.2 z\r\nx y 3.4.5\r\n";
    assert_eq!(version_from_build_info(content), Ok("1".to_string()));
    assert_eq!(version_from_build_info("A Version!STRING:0\nx nodots\n"), Ok("nodots".to_string()));
    assert_eq!(version_from_build_info("A Version!STRING:0\nx .5\n"), Ok(String::new()));
}

#[test]
fn build_info_without_a_version_column() {
    assert_eq!(version_from_build_info("A B C\n1 2 3\n"), Err(VersionError::MissingColumn));
    assert_eq!(
        version_from_build_info("Version!STRING:0 B\n1.2.3 x\n"),
        Err(VersionError::MissingColumn)
    );
    assert_eq!(version_from_build_info("A|Version!STRING:0\nx|1.2\n"), Err(VersionError::MissingColumn));
}

#[test]
fn build_info_without_a_version_row() {
    assert_eq!(version_from_build_info(""), Err(VersionError::MissingRow));
    assert_eq!(version_from_build_info("A Version!STRING:0\n"), Err(VersionError::MissingRow));
    assert_eq!(version_from_build_info("A B C"), Err(VersionError::MissingRow));
    assert_eq!(version_from_build_info("A Version!STRING:0\nonly\n\n"), Err(VersionError::MissingRow));
}

#[test]
fn plist_version_is_the_string_after_the_key() {
    assert_eq!(version_from_info_plist(PLIST), Ok("11.0.2".to_string()));
}

#[test]
fn plist_without_the_key_or_its_string() {
    assert_eq!(
        version_from_info_plist("<plist><dict><key>Other</key><string>1</string></dict></plist>"),
        Err(VersionError::MissingKey)
    );
    assert_eq!(
        version_from_info_plist("<dict><string>1</string><key>CFBundleShortVersionString</key><string/></dict>"),
        Err(VersionError::MissingKey)
    );
    assert_eq!(
        version_from_info_plist(
            "<a><b><key>CFBundleShortVersionString</key></b><string>no sibling</string><c><key>CFBundleShortVersionString</key><string>2.0</string></c></a>"
        ),
        Ok("2.0".to_string())
    );
}

#[test]
fn plist_that_is_no_document() {
    assert_eq!(version_from_info_plist(""), Err(VersionError::InvalidPlist));
    assert_eq!(version_from_info_plist("<plist><dict></plist>"), Err(VersionError::InvalidPlist));
    assert_eq!(version_from_info_plist("no markup"), Err(VersionError::InvalidPlist));
}

#[test]
fn version_is_found_in_given_nodes() {
    let nodes = vec![
        node(false, "", None, None),
        node(true, "dict", None, None),
        node(true, "key", Some("CFBundleShortVersionString"), Some(4)),
        node(false, "", Some("CFBundleShortVersionString"), None),
        node(true, "integer", Some("7"), Some(6)),
        node(false, "", Some("7"), None),
        node(true, "string", Some("10.2.7"), None),
        node(false, "", Some("10.2.7"), None),
    ];
    assert_eq!(version_from_nodes(&nodes), Ok("10.2.7".to_string()));
    assert_eq!(version_from_nodes(&Vec::new()), Err(VersionError::MissingKey));
}

#[test]
fn sibling_links_that_do_not_lead_forward_end_the_walk() {
    let nodes = vec![
        node(true, "key", Some("CFBundleShortVersionString"), Some(1)),
        node(true, "other", None, Some(1)),
        node(true, "string", Some("1.0"), None),
    ];
    assert_eq!(version_from_nodes(&nodes), Err(VersionError::MissingKey));
    let nodes = vec![
        node(true, "key", Some("CFBundleShortVersionString"), Some(9)),
        node(true, "string", Some("1.0"), None),
    ];
    assert_eq!(version_from_nodes(&nodes), Err(VersionError::MissingKey));
    let nodes = vec![
        node(true, "string", Some("0.9"), Some(1)),
        node(true, "key", Some("CFBundleShortVersionString"), Some(0)),
    ];
    assert_eq!(version_from_nodes(&nodes), Err(VersionError::MissingKey));
}

#[test]
fn version_file_is_chosen_by_its_name() {
    assert_eq!(
        version_file_path("/Applications/World of Warcraft", true),
        "/Applications/World of Warcraft/_retail_/World of Warcraft.app/Contents/Info.plist"
    );
    assert_eq!(version_file_path("/wow", false), "/wow/.build.info");
    assert_eq!(version_from_file("/x/Info.plist", PLIST), Ok("11.0.2".to_string()));
    assert_eq!(version_from_file("/x/.build.info", PLIST), Err(VersionError::MissingColumn));
    assert_eq!(
        version_from_file("/x/.build.info", "A Version!STRING:0\nx 1.2.3\n"),
        Ok("1.2".to_string())
    );
    assert_eq!(version_from_file("Info.plist.bak", "<a/>"), Err(VersionError::MissingRow));
}

#[test]
fn first_file_for_the_game_version_is_chosen() {
    let game_mod = addon(vec![
        file(1, &["10.2.7"]),
        file(2, &["4.4.0", "11.0.2"]),
        file(3, &["11.0.2"]),
    ]);
    assert_eq!(get_mod_file_for_game_version(&game_mod, "11.0.2").map(|f| f.id), Ok(2));
    assert_eq!(get_mod_file_for_game_version(&game_mod, "10.2.7").map(|f| f.id), Ok(1));
    assert_eq!(
        get_mod_file_for_game_version(&game_mod, "11.0").map(|f| f.id),
        Err(VersionError::NoFileForVersion)
    );
    assert_eq!(
        get_mod_file_for_game_version(&addon(Vec::new()), "11.0.2").map(|f| f.id),
        Err(VersionError::NoFileForVersion)
    );
}

#[test]
fn version_faults_say_what_is_wrong() {
    assert_eq!(VersionError::MissingColumn.message(), "Version not found in .build.info");
    assert_eq!(VersionError::MissingRow.message(), "Version not found in build.info");
    assert_eq!(VersionError::InvalidPlist.message(), "The property list is not well formed");
    assert_eq!(VersionError::MissingKey.message(), "Version not found in plist");
    assert_eq!(VersionError::NoFileForVersion.message(), "File not found for game version");
}
