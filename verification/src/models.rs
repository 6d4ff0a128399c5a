//! The records of the addon catalog, as plain data.

use vstd::prelude::*;

verus! {

/// The answer of the catalog to a request for one game.
#[derive(Debug, Clone)]
pub struct GameResponse {
    pub data: Game,
}

/// The answer of the catalog to a request for the games.
#[derive(Debug, Clone)]
pub struct GameArrayResponse {
    pub data: Vec<Game>,
}

/// A game that the catalog holds addons for.
#[derive(Debug, Clone)]
pub struct Game {
    pub id: u32,
    pub name: String,
    pub slug: String,
    pub date_modified: String,
    pub assets: GameAssets,
    pub status: u32,
    pub api_status: u32,
}

/// The pictures of a game.
#[derive(Debug, Clone)]
pub struct GameAssets {
    pub icon_url: Option<String>,
    pub tile_url: Option<String>,
    pub cover_url: Option<String>,
}

/// The answer of the catalog to a request for one addon.
#[derive(Debug, Clone)]
pub struct ModResponse {
    pub data: Mod,
}

/// The answer of the catalog to a search for addons.
#[derive(Debug, Clone)]
pub struct ModArrayResponse {
    pub data: Vec<Mod>,
}

/// An addon of the catalog.
#[derive(Debug, Clone)]
pub struct Mod {
    pub screenshots: Vec<String>,
    pub id: u32,
    pub game_id: u32,
    pub name: String,
    pub slug: String,
    pub links: ModLinks,
    pub summary: String,
    pub status: u32,
    pub download_count: u32,
    pub is_featured: bool,
    pub primary_category_id: u32,
    pub categories: Vec<Category>,
    pub class_id: u32,
    pub authors: Vec<Author>,
    pub logo: ModLogo,
    pub main_file_id: u32,
    pub latest_files: Vec<ModFile>,
    pub latest_files_indexes: Vec<FileIndex>,
    pub latest_early_access_files_indexes: Vec<FileIndex>,
    pub date_created: String,
    pub date_modified: String,
    pub date_released: String,
    pub allow_mod_distribution: bool,
    pub game_popularity_rank: u32,
    pub is_available: bool,
    pub has_comments_enabled: bool,
    pub thumbs_up_count: u32,
    pub featured_project_tag: u32,
}

/// The pages of an addon on the web.
#[derive(Debug, Clone)]
pub struct ModLinks {
    pub website_url: String,
    pub wiki_url: Option<String>,
    pub issues_url: Option<String>,
    pub source_url: Option<String>,
}

/// A category of addons.
#[derive(Debug, Clone)]
pub struct Category {
    pub id: u32,
    pub game_id: u32,
    pub name: String,
    pub slug: String,
    pub url: String,
    pub icon_url: String,
    pub date_modified: String,
    pub is_class: bool,
    pub class_id: u32,
    pub parent_category_id: u32,
}

/// An author of an addon.
#[derive(Debug, Clone)]
pub struct Author {
    pub id: u32,
    pub name: String,
    pub url: String,
    pub avatar_url: String,
}

/// The logo of an addon.
#[derive(Debug, Clone)]
pub struct ModLogo {
    pub id: u32,
    pub mod_id: u32,
    pub title: String,
    pub description: String,
    pub thumbnail_url: String,
    pub url: String,
}

/// One file of an addon: an archive for some versions of the game.
#[derive(Debug, Clone)]
pub struct ModFile {
    pub id: u32,
    pub game_id: u32,
    pub mod_id: u32,
    pub is_available: bool,
    pub display_name: String,
    pub file_name: String,
    pub release_type: u32,
    pub file_status: u32,
    pub hashes: Vec<FileHash>,
    pub file_date: String,
    pub file_length: u64,
    pub download_count: u32,
    pub file_size_on_disk: u64,
    pub download_url: String,
    pub game_versions: Vec<String>,
    pub sortable_game_versions: Vec<GameVersion>,
    pub dependencies: Vec<String>,
    pub alternate_file_id: u32,
    pub is_server_pack: bool,
    pub file_fingerprint: u64,
    pub modules: Vec<FileModule>,
}

/// A checksum of a file.
#[derive(Debug, Clone)]
pub struct FileHash {
    pub value: String,
    pub algo: u32,
}

/// A version of the game, in a form that sorts.
#[derive(Debug, Clone)]
pub struct GameVersion {
    pub game_version_name: String,
    pub game_version_padded: String,
    pub game_version: String,
    pub game_version_release_date: String,
    pub game_version_type_id: u32,
}

/// A top-level directory of an archive.
#[derive(Debug, Clone)]
pub struct FileModule {
    pub name: String,
    pub fingerprint: u64,
}

/// An entry of the index from game versions to files.
#[derive(Debug, Clone)]
pub struct FileIndex {
    pub game_version: String,
    pub file_id: u32,
    pub filename: String,
    pub release_type: u32,
    pub game_version_type_id: u32,
}

} // verus!
