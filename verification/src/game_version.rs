//! The version of the installed game, and the file of an addon that fits it.
//!
//! The version stands in one of two files of the installation: the property
//! list of the application bundle, or the build information of the
//! launcher.

use crate::models::{Mod, ModFile};
use crate::text::{
    append_chars, copy_range, ends_with, from_chars, lines, same_chars, split_lines,
    split_whitespace, text_is, to_chars, views, words,
};
use vstd::prelude::*;

verus! {

/// The header of the version column in the build information.
pub const VERSION_HEADER: &'static str = "Version!STRING:0";

/// The key of the version in the property list.
pub const BUNDLE_VERSION_KEY: &'static str = "CFBundleShortVersionString";

/// Where the property list lies below the installation directory.
pub const INFO_PLIST_SUFFIX: &'static str = "/_retail_/World of Warcraft.app/Contents/Info.plist";

/// Where the build information lies below the installation directory.
pub const BUILD_INFO_SUFFIX: &'static str = "/.build.info";

/// Why no version, or no file for a version, is found.
#[derive(Debug, Clone, Copy, PartialEq, Eq, Structural)]
pub enum VersionError {
    /// The build information has rows, but no version column after the first.
    MissingColumn,
    /// No row of the build information reaches the version column.
    MissingRow,
    /// The property list is no well-formed document.
    InvalidPlist,
    /// The property list holds no version key with a string after it.
    MissingKey,
    /// No latest file of the addon is for the version of the game.
    NoFileForVersion,
}

/// What a fault says to the user.
pub open spec fn fault_text(fault: VersionError) -> Seq<char> {
    match fault {
        VersionError::MissingColumn => "Version not found in .build.info"@,
        VersionError::MissingRow => "Version not found in build.info"@,
        VersionError::InvalidPlist => "The property list is not well formed"@,
        VersionError::MissingKey => "Version not found in plist"@,
        VersionError::NoFileForVersion => "File not found for game version"@,
    }
}

impl VersionError {
    /// What the fault says to the user.
    pub fn message(&self) -> (text: String)
        ensures
            text@ == fault_text(*self),
    {
        match self {
            VersionError::MissingColumn => "Version not found in .build.info".to_owned(),
            VersionError::MissingRow => "Version not found in build.info".to_owned(),
            VersionError::InvalidPlist => "The property list is not well formed".to_owned(),
            VersionError::MissingKey => "Version not found in plist".to_owned(),
            VersionError::NoFileForVersion => "File not found for game version".to_owned(),
        }
    }
}

/// The index of the first of `items` that is `wanted`.
pub open spec fn first_index(items: Seq<Seq<char>>, wanted: Seq<char>) -> Option<int>
    decreases items.len(),
{
    if items.len() == 0 {
        None
    } else if items[0] == wanted {
        Some(0)
    } else {
        match first_index(items.skip(1), wanted) {
            Some(i) => Some(i + 1),
            None => None,
        }
    }
}

/// The column of the version, counted from 0, that the header row names;
/// 0 where it names none.
pub open spec fn version_column(header: Seq<char>) -> int {
    match first_index(words(header), VERSION_HEADER@) {
        Some(i) => i,
        None => 0,
    }
}

/// The index of the last full stop of `version`.
pub open spec fn last_dot(version: Seq<char>) -> Option<int>
    decreases version.len(),
{
    if version.len() == 0 {
        None
    } else if version.last() == '.' {
        Some(version.len() - 1)
    } else {
        last_dot(version.drop_last())
    }
}

/// `version` without its last full stop and what follows it: a build
/// number is cut off. All of it where it holds no full stop.
pub open spec fn without_build(version: Seq<char>) -> Seq<char> {
    match last_dot(version) {
        Some(at) => version.take(at),
        None => version,
    }
}

/// The version in the first of the rows `rows` that reaches the column `column`.
pub open spec fn version_in_rows(rows: Seq<Seq<char>>, column: int) -> Result<
    Seq<char>,
    VersionError,
>
    decreases rows.len(),
{
    if rows.len() == 0 {
        Err(VersionError::MissingRow)
    } else if column < words(rows[0]).len() {
        Ok(without_build(words(rows[0])[column]))
    } else {
        version_in_rows(rows.skip(1), column)
    }
}

/// The version that the build information `content` gives.
///
/// The first line names the columns, separated by white space; the others
/// are rows. The version is that of the first row that reaches the version
/// column, without its build number. A version column that is the first
/// column counts as none.
pub open spec fn build_info_version(content: Seq<char>) -> Result<Seq<char>, VersionError> {
    let rows = lines(content);
    if rows.len() >= 2 && version_column(rows[0]) == 0 {
        Err(VersionError::MissingColumn)
    } else if rows.len() == 0 {
        Err(VersionError::MissingRow)
    } else {
        version_in_rows(rows.skip(1), version_column(rows[0]))
    }
}

/// The view of a result that holds a version.
pub open spec fn version_outcome(r: Result<String, VersionError>) -> Result<
    Seq<char>,
    VersionError,
> {
    match r {
        Ok(version) => Ok(version@),
        Err(fault) => Err(fault),
    }
}

fn column_of_version(header: &Vec<char>) -> (column: usize)
    ensures
        column == version_column(header@),
{
    let names = split_whitespace(header);
    let wanted = to_chars(VERSION_HEADER);
    let ghost all = words(header@);
    let mut i: usize = 0;
    assert(all.skip(0) =~= all);
    while i < names.len()
        invariant
            i <= names.len(),
            views(names@) == all,
            all == words(header@),
            wanted@ == VERSION_HEADER@,
            first_index(all, wanted@) == match first_index(all.skip(i as int), wanted@) {
                Some(k) => Some(i + k),
                None => None,
            },
        decreases names.len() - i,
    {
        assert(all.skip(i as int)[0] == names[i as int]@);
        if same_chars(&names[i], &wanted) {
            return i;
        }
        assert(all.skip(i as int).skip(1) =~= all.skip(i + 1));
        i += 1;
    }
    0
}

fn cut_build(version: &Vec<char>) -> (r: Vec<char>)
    ensures
        r@ == without_build(version@),
{
    let mut end: usize = version.len();
    assert(version@.take(end as int) =~= version@);
    while end > 0 && version[end - 1] != '.'
        invariant
            end <= version.len(),
            last_dot(version@) == last_dot(version@.take(end as int)),
        decreases end,
    {
        assert(version@.take(end as int).drop_last() =~= version@.take(end - 1));
        end -= 1;
    }
    if end == 0 {
        copy_range(version, 0, version.len())
    } else {
        assert(version@.take(end as int).last() == '.');
        let r = copy_range(version, 0, end - 1);
        assert(r@ =~= version@.take(end - 1));
        r
    }
}

/// Reads the version of the game from the build information `content`.
pub fn version_from_build_info(content: &str) -> (r: Result<String, VersionError>)
    ensures
        version_outcome(r) == build_info_version(content@),
{
    let text = to_chars(content);
    let all = split_lines(&text);
    let ghost rows = lines(content@);
    if all.len() == 0 {
        return Err(VersionError::MissingRow);
    }
    assert(rows[0] == all[0]@);
    let column = column_of_version(&all[0]);
    if all.len() >= 2 && column == 0 {
        return Err(VersionError::MissingColumn);
    }
    let mut i: usize = 1;
    while i < all.len()
        invariant
            1 <= i <= all.len(),
            views(all@) == rows,
            rows == lines(content@),
            column == version_column(rows[0]),
            build_info_version(content@) == version_in_rows(rows.skip(i as int), column as int),
        decreases all.len() - i,
    {
        let ghost rest = rows.skip(i as int);
        assert(rest[0] == all[i as int]@);
        let columns = split_whitespace(&all[i]);
        if column < columns.len() {
            assert(words(rest[0])[column as int] == columns[column as int]@);
            return Ok(from_chars(&cut_build(&columns[column])));
        }
        assert(rest.skip(1) =~= rows.skip(i + 1));
        i += 1;
    }
    assert(rows.skip(all.len() as int).len() == 0);
    Err(VersionError::MissingRow)
}

/// `roxmltree::Error`, the error of a text that is no document; nothing is
/// known of what it holds.
#[verifier::external_type_specification]
#[verifier::external_body]
pub struct ExXmlError(roxmltree::Error);

/// One node of a document, as far as the version is read from it.
#[derive(Debug)]
pub struct XmlNode {
    /// Whether the node is an element.
    pub is_element: bool,
    /// The local name of the element; empty for a node that is none.
    pub tag: String,
    /// The text of a text node or a comment, and for an element the text
    /// that it starts with.
    pub text: Option<String>,
    /// The index of the next node under the same parent.
    pub next_sibling: Option<usize>,
}

/// What an [`XmlNode`] is, over plain texts.
pub struct XmlNodeModel {
    pub is_element: bool,
    pub tag: Seq<char>,
    pub text: Option<Seq<char>>,
    pub next_sibling: Option<usize>,
}

impl View for XmlNode {
    type V = XmlNodeModel;

    open spec fn view(&self) -> XmlNodeModel {
        XmlNodeModel {
            is_element: self.is_element,
            tag: self.tag@,
            text: match self.text {
                Some(text) => Some(text@),
                None => None,
            },
            next_sibling: self.next_sibling,
        }
    }
}

/// The nodes of the document that `roxmltree::Document::parse_with_options`
/// reads from a text, in document order, the root first; `None` where it
/// reads none. `allow_dtd` is the option of that name.
pub uninterp spec fn xml_nodes(text: Seq<char>, allow_dtd: bool) -> Option<Seq<XmlNodeModel>>;

/// Reads `text` with `roxmltree::Document::parse_with_options` and hands out
/// the nodes of `Document::descendants`, of each what `Node::is_element`,
/// `Node::tag_name`, `Node::text` and `Node::next_sibling` give. A node's
/// index in the result is its `NodeId`. The result is the one that
/// [`xml_nodes`] names; the error is that of the parser.
#[verifier::external_body]
fn parse_xml(text: &str, allow_dtd: bool) -> (r: Result<Vec<XmlNode>, roxmltree::Error>)
    ensures
        r is Ok <==> xml_nodes(text@, allow_dtd) is Some,
        r matches Ok(nodes) ==> xml_nodes(text@, allow_dtd) == Some(views(nodes@)),
{
    let options = roxmltree::ParsingOptions { allow_dtd, ..Default::default() };
    let document = roxmltree::Document::parse_with_options(text, options)?;
    Ok(
        document.descendants().map(
            |node|
                XmlNode {
                    is_element: node.is_element(),
                    tag: node.tag_name().name().to_string(),
                    text: node.text().map(|text| text.to_string()),
                    next_sibling: node.next_sibling().map(|next| next.id().get_usize()),
                },
        ).collect(),
    )
}

/// Whether the node is a `key` element whose text is the version key.
pub open spec fn is_version_key(node: XmlNodeModel) -> bool {
    node.is_element && node.tag == "key"@ && node.text == Some(BUNDLE_VERSION_KEY@)
}

/// Whether the node is a `string` element with a text.
pub open spec fn is_string(node: XmlNodeModel) -> bool {
    node.is_element && node.tag == "string"@ && node.text is Some
}

/// The index of the next sibling of the node at `at`, where it has one
/// that comes later in the document.
pub open spec fn next_of(nodes: Seq<XmlNodeModel>, at: int) -> Option<int> {
    if 0 <= at < nodes.len() {
        match nodes[at].next_sibling {
            Some(next) => if at < next < nodes.len() {
                Some(next as int)
            } else {
                None
            },
            None => None,
        }
    } else {
        None
    }
}

/// The text of the first `string` element with a text among the node at
/// `at` and the siblings after it.
pub open spec fn string_from(nodes: Seq<XmlNodeModel>, at: int) -> Option<Seq<char>>
    decreases nodes.len() - at,
{
    if 0 <= at < nodes.len() {
        if is_string(nodes[at]) {
            nodes[at].text
        } else {
            match next_of(nodes, at) {
                Some(next) => string_from(nodes, next),
                None => None,
            }
        }
    } else {
        None
    }
}

/// The text of the first `string` element among the siblings after the node at `at`.
pub open spec fn string_after(nodes: Seq<XmlNodeModel>, at: int) -> Option<Seq<char>> {
    match next_of(nodes, at) {
        Some(next) => string_from(nodes, next),
        None => None,
    }
}

/// The version that the nodes from index `from` on give: the string after
/// the first version key that has a string among the siblings after it.
pub open spec fn version_in_nodes(nodes: Seq<XmlNodeModel>, from: int) -> Option<Seq<char>>
    decreases nodes.len() - from,
{
    if 0 <= from < nodes.len() {
        if is_version_key(nodes[from]) && string_after(nodes, from) is Some {
            string_after(nodes, from)
        } else {
            version_in_nodes(nodes, from + 1)
        }
    } else {
        None
    }
}

/// The version that the nodes of a property list give, or why they give none.
pub open spec fn nodes_version(nodes: Seq<XmlNodeModel>) -> Result<Seq<char>, VersionError> {
    match version_in_nodes(nodes, 0) {
        Some(version) => Ok(version),
        None => Err(VersionError::MissingKey),
    }
}

/// The version that the property list `text` gives, or why it gives none.
pub open spec fn plist_version(text: Seq<char>) -> Result<Seq<char>, VersionError> {
    match xml_nodes(text, true) {
        Some(nodes) => nodes_version(nodes),
        None => Err(VersionError::InvalidPlist),
    }
}

fn node_is_version_key(node: &XmlNode) -> (r: bool)
    ensures
        r == is_version_key(node@),
{
    if !node.is_element {
        return false;
    }
    if !text_is(&to_chars(node.tag.as_str()), "key") {
        return false;
    }
    match &node.text {
        Some(text) => text_is(&to_chars(text.as_str()), BUNDLE_VERSION_KEY),
        None => false,
    }
}

fn node_is_string(node: &XmlNode) -> (r: bool)
    ensures
        r == is_string(node@),
{
    node.is_element && node.text.is_some() && text_is(
        &to_chars(node.tag.as_str()),
        "string",
    )
}

fn next_index(nodes: &Vec<XmlNode>, at: usize) -> (r: Option<usize>)
    ensures
        r is Some <==> next_of(views(nodes@), at as int) is Some,
        r matches Some(next) ==> next_of(views(nodes@), at as int) == Some(next as int),
{
    if at < nodes.len() {
        assert(views(nodes@)[at as int] == nodes[at as int]@);
        match nodes[at].next_sibling {
            Some(next) => if at < next && next < nodes.len() {
                Some(next)
            } else {
                None
            },
            None => None,
        }
    } else {
        None
    }
}

fn string_of_siblings(nodes: &Vec<XmlNode>, at: usize) -> (r: Option<usize>)
    ensures
        r is Some <==> string_after(views(nodes@), at as int) is Some,
        r matches Some(found) ==> {
            &&& found < nodes.len()
            &&& nodes[found as int]@.text == string_after(views(nodes@), at as int)
        },
{
    let ghost all = views(nodes@);
    let mut next = next_index(nodes, at);
    loop
        invariant
            all == views(nodes@),
            next matches Some(n) ==> n < nodes.len(),
            string_after(all, at as int) == match next {
                Some(n) => string_from(all, n as int),
                None => None,
            },
        decreases
            match next {
                Some(n) => nodes.len() - n,
                None => 0,
            },
    {
        match next {
            None => {
                return None;
            },
            Some(n) => {
                assert(all[n as int] == nodes[n as int]@);
                if node_is_string(&nodes[n]) {
                    return Some(n);
                }
                next = next_index(nodes, n);
            },
        }
    }
}

/// Finds the version in the nodes of a property list: the text of the
/// first `string` element among the siblings after a `key` element whose
/// text is the version key.
pub fn version_from_nodes(nodes: &Vec<XmlNode>) -> (r: Result<String, VersionError>)
    ensures
        version_outcome(r) == nodes_version(views(nodes@)),
{
    let ghost all = views(nodes@);
    let mut i: usize = 0;
    while i < nodes.len()
        invariant
            i <= nodes.len(),
            all == views(nodes@),
            version_in_nodes(all, 0) == version_in_nodes(all, i as int),
        decreases nodes.len() - i,
    {
        assert(all[i as int] == nodes[i as int]@);
        if node_is_version_key(&nodes[i]) {
            match string_of_siblings(nodes, i) {
                Some(found) => {
                    match &nodes[found].text {
                        Some(text) => {
                            return Ok(text.clone());
                        },
                        None => {},
                    }
                },
                None => {},
            }
        }
        i += 1;
    }
    Err(VersionError::MissingKey)
}

/// Reads the version of the game from the property list `text`, which may
/// hold a document type declaration.
pub fn version_from_info_plist(text: &str) -> (r: Result<String, VersionError>)
    ensures
        version_outcome(r) == plist_version(text@),
{
    match parse_xml(text, true) {
        Ok(nodes) => version_from_nodes(&nodes),
        Err(_) => Err(VersionError::InvalidPlist),
    }
}

/// Whether the file `file` is for the version `version` of the game.
pub open spec fn supports(file: ModFile, version: Seq<char>) -> bool {
    exists|k: int| 0 <= k < file.game_versions@.len() && (#[trigger] file.game_versions@[k])@ == version
}

/// Whether none of the files before index `n` is for the version `version`.
pub open spec fn none_supports(files: Seq<ModFile>, n: int, version: Seq<char>) -> bool {
    forall|i: int| 0 <= i < n ==> !supports(#[trigger] files[i], version)
}

fn file_supports(file: &ModFile, version: &Vec<char>) -> (r: bool)
    ensures
        r == supports(*file, version@),
{
    let mut k: usize = 0;
    while k < file.game_versions.len()
        invariant
            k <= file.game_versions.len(),
            forall|j: int| 0 <= j < k ==> (#[trigger] file.game_versions@[j])@ != version@,
        decreases file.game_versions.len() - k,
    {
        if same_chars(&to_chars(file.game_versions[k].as_str()), version) {
            return true;
        }
        k += 1;
    }
    false
}

/// The first of the latest files of `game_mod` that is for the version
/// `game_version` of the game; [`VersionError::NoFileForVersion`] where
/// none is.
pub fn get_mod_file_for_game_version<'a>(game_mod: &'a Mod, game_version: &str) -> (r: Result<
    &'a ModFile,
    VersionError,
>)
    ensures
        match r {
            Ok(file) => exists|i: int|
                {
                    &&& 0 <= i < game_mod.latest_files@.len()
                    &&& none_supports(game_mod.latest_files@, i, game_version@)
                    &&& supports(#[trigger] game_mod.latest_files@[i], game_version@)
                    &&& *file == game_mod.latest_files@[i]
                },
            Err(fault) => {
                &&& fault == VersionError::NoFileForVersion
                &&& none_supports(
                    game_mod.latest_files@,
                    game_mod.latest_files@.len() as int,
                    game_version@,
                )
            },
        },
{
    let version = to_chars(game_version);
    let mut i: usize = 0;
    while i < game_mod.latest_files.len()
        invariant
            i <= game_mod.latest_files.len(),
            version@ == game_version@,
            none_supports(game_mod.latest_files@, i as int, game_version@),
        decreases game_mod.latest_files.len() - i,
    {
        if file_supports(&game_mod.latest_files[i], &version) {
            return Ok(&game_mod.latest_files[i]);
        }
        i += 1;
    }
    Err(VersionError::NoFileForVersion)
}

/// The path of the file that holds the version: the property list where
/// the installation has one, else the build information.
pub fn version_file_path(wow_path: &str, has_info_plist: bool) -> (path: String)
    ensures
        path@ == wow_path@ + if has_info_plist {
            INFO_PLIST_SUFFIX@
        } else {
            BUILD_INFO_SUFFIX@
        },
{
    let mut path = to_chars(wow_path);
    let suffix = if has_info_plist {
        to_chars(INFO_PLIST_SUFFIX)
    } else {
        to_chars(BUILD_INFO_SUFFIX)
    };
    append_chars(&mut path, &suffix);
    from_chars(&path)
}

/// The version that the file at `path` with the content `content` gives: a
/// path that ends in `Info.plist` names a property list, any other the
/// build information.
pub open spec fn file_version(path: Seq<char>, content: Seq<char>) -> Result<
    Seq<char>,
    VersionError,
> {
    if "Info.plist"@.is_suffix_of(path) {
        plist_version(content)
    } else {
        build_info_version(content)
    }
}

/// Reads the version of the game from the file at `path`, whose content is `content`.
pub fn version_from_file(path: &str, content: &str) -> (r: Result<String, VersionError>)
    ensures
        version_outcome(r) == file_version(path@, content@),
{
    if ends_with(&to_chars(path), &to_chars("Info.plist")) {
        version_from_info_plist(content)
    } else {
        version_from_build_info(content)
    }
}

} // verus!
