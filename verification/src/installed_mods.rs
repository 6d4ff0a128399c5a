//! The addons that are installed: reading the manifest of each addon
//! directory, and gathering one row for each addon.
//!
//! An addon directory `Name` holds its manifest in `Name.toc` or
//! `Name_Mainline.toc`. The manifest is a text of lines; the lines that
//! start with one of the markers below declare the fields of the addon.

use crate::mod_table::{ModRow, RowModel};
use crate::models::Mod;
use crate::text::{
    append_chars, copy_range, from_chars, lines, parse_u32, parsed_u32, parts, pieces,
    remove_all, same_chars, split_lines, split_on, split_on_text, starts_with, to_chars, trim,
    trimmed, views, without,
};
use vstd::prelude::*;

verus! {

/// The marker of the line that declares the project identifier.
pub const PROJECT_ID_MARKER: &'static str = "## X-Curse-Project-ID:";

/// The marker of the line that declares the title.
pub const TITLE_MARKER: &'static str = "## Title:";

/// The marker of the line that declares the version.
pub const VERSION_MARKER: &'static str = "## Version:";

/// The marker of the line that declares the notes.
pub const NOTES_MARKER: &'static str = "## Notes:";

/// The first marker of a line that declares dependencies.
pub const REQUIRED_DEPS_MARKER: &'static str = "## RequiredDeps:";

/// The second marker of a line that declares dependencies.
pub const DEPENDENCIES_MARKER: &'static str = "## Dependencies:";

/// The pattern of a colour code in a title: a pipe, `c`, `f` or `F`, and
/// seven more characters.
pub const COLOR_CODE_PATTERN: &'static str = "\\|c[fF].{7}";

/// `regex::Error`, the error of a pattern that does not compile; nothing is
/// known of what it holds.
#[verifier::external_type_specification]
#[verifier::external_body]
pub struct ExRegexError(regex::Error);

/// What `regex::Regex::replace_all` returns for a pattern, a text and a
/// replacement, where `regex::Regex::new` compiles the pattern; `None` where
/// it does not.
pub uninterp spec fn regex_replaced(pattern: Seq<char>, text: Seq<char>, replacement: Seq<char>) -> Option<
    Seq<char>,
>;

/// Compiles `pattern` with `regex::Regex::new` and replaces every match in
/// `text` with `regex::Regex::replace_all`. The result is the one that
/// [`regex_replaced`] names; the error is that of the compilation.
#[verifier::external_body]
fn replace_matches(pattern: &str, text: &str, replacement: &str) -> (r: Result<String, regex::Error>)
    ensures
        r is Ok <==> regex_replaced(pattern@, text@, replacement@) is Some,
        r matches Ok(replaced) ==> regex_replaced(pattern@, text@, replacement@) == Some(
            replaced@,
        ),
{
    let compiled = regex::Regex::new(pattern)?;
    Ok(compiled.replace_all(text, replacement).into_owned())
}

/// Whether `file_name` is the name of the manifest of the addon directory
/// `dir_name`.
pub open spec fn manifest_name(dir_name: Seq<char>, file_name: Seq<char>) -> bool {
    file_name == dir_name + ".toc"@ || file_name == dir_name + "_Mainline.toc"@
}

/// Whether `file_name` is the name of the manifest of the addon directory
/// `dir_name`.
pub fn is_manifest_name(dir_name: &str, file_name: &str) -> (r: bool)
    ensures
        r == manifest_name(dir_name@, file_name@),
{
    let file = to_chars(file_name);
    let mut plain = to_chars(dir_name);
    let mut mainline = to_chars(dir_name);
    let plain_suffix = to_chars(".toc");
    let mainline_suffix = to_chars("_Mainline.toc");
    append_chars(&mut plain, &plain_suffix);
    append_chars(&mut mainline, &mainline_suffix);
    same_chars(&file, &plain) || same_chars(&file, &mainline)
}

/// What a manifest declares.
#[derive(Debug)]
pub struct TocInfo {
    /// The project identifier; 0 where no line declares a number above 0.
    pub project_id: u32,
    /// The title, without its markup.
    pub title: String,
    /// The version.
    pub version: String,
    /// The notes.
    pub notes: String,
    /// Whether the manifest declares dependencies.
    pub declares_dependencies: bool,
}

/// What a [`TocInfo`] is, over plain texts.
pub struct TocModel {
    pub project_id: u32,
    pub title: Seq<char>,
    pub version: Seq<char>,
    pub notes: Seq<char>,
    pub declares_dependencies: bool,
}

impl View for TocInfo {
    type V = TocModel;

    open spec fn view(&self) -> TocModel {
        TocModel {
            project_id: self.project_id,
            title: self.title@,
            version: self.version@,
            notes: self.notes@,
            declares_dependencies: self.declares_dependencies,
        }
    }
}

impl TocModel {
    /// A manifest that declares nothing.
    pub open spec fn nothing() -> TocModel {
        TocModel {
            project_id: 0,
            title: Seq::empty(),
            version: Seq::empty(),
            notes: Seq::empty(),
            declares_dependencies: false,
        }
    }
}

/// Why a manifest cannot be read.
#[derive(Debug, Clone, Copy, PartialEq, Eq, Structural)]
pub enum TocError {
    /// The pattern of the colour codes did not compile.
    ColorPattern,
}

impl TocError {
    /// What the fault says to the user.
    pub fn message(&self) -> (text: String)
        ensures
            text@ == "the pattern of the colour codes does not compile"@,
    {
        "the pattern of the colour codes does not compile".to_owned()
    }
}

/// The value of a field: the line without its marker, wherever the marker
/// stands in it, and without white space around it.
pub open spec fn field_value(line: Seq<char>, marker: Seq<char>) -> Seq<char> {
    trimmed(without(line, marker))
}

/// The project identifier that a line declares: the number that its value
/// writes, or 0.
pub open spec fn declared_id(line: Seq<char>) -> u32 {
    match parsed_u32(field_value(line, PROJECT_ID_MARKER@)) {
        Some(id) => id,
        None => 0,
    }
}

/// The title that a line declares, without square brackets and without the
/// mark `|r` that ends a colour, but with its colour codes.
pub open spec fn bracketless_title(line: Seq<char>) -> Seq<char> {
    without(without(without(field_value(line, TITLE_MARKER@), "["@), "|r"@), "]"@)
}

/// The title that a line declares, without its markup; `None` where the
/// pattern of the colour codes does not compile.
pub open spec fn declared_title(line: Seq<char>) -> Option<Seq<char>> {
    regex_replaced(COLOR_CODE_PATTERN@, bracketless_title(line), ""@)
}

/// Whether a line declares dependencies.
pub open spec fn declares_dependencies(line: Seq<char>) -> bool {
    REQUIRED_DEPS_MARKER@.is_prefix_of(line) || DEPENDENCIES_MARKER@.is_prefix_of(line)
}

/// Whether a line declares a project: it starts with the marker of the
/// project identifier, and its value writes a number above 0.
pub open spec fn declares_project(line: Seq<char>) -> bool {
    !declares_dependencies(line) && PROJECT_ID_MARKER@.is_prefix_of(line) && declared_id(line) > 0
}

/// What is known of a manifest after one more line: a line that declares
/// dependencies is noted, a line that declares a project sets the project
/// identifier, a line that starts with the marker of another field sets
/// the field, and any other line changes nothing.
pub open spec fn toc_line(known: TocModel, line: Seq<char>) -> Result<TocModel, TocError> {
    if declares_dependencies(line) {
        Ok(TocModel { declares_dependencies: true, ..known })
    } else if PROJECT_ID_MARKER@.is_prefix_of(line) {
        if declared_id(line) > 0 {
            Ok(TocModel { project_id: declared_id(line), ..known })
        } else {
            Ok(known)
        }
    } else if TITLE_MARKER@.is_prefix_of(line) {
        match declared_title(line) {
            Some(title) => Ok(TocModel { title, ..known }),
            None => Err(TocError::ColorPattern),
        }
    } else if VERSION_MARKER@.is_prefix_of(line) {
        Ok(TocModel { version: field_value(line, VERSION_MARKER@), ..known })
    } else if NOTES_MARKER@.is_prefix_of(line) {
        Ok(TocModel { notes: field_value(line, NOTES_MARKER@), ..known })
    } else {
        Ok(known)
    }
}

/// What the lines `rest` of a manifest declare, after what is `known`.
/// Every line is read, wherever it stands. Where a field is declared twice,
/// the later line wins.
pub open spec fn toc_read(rest: Seq<Seq<char>>, known: TocModel) -> Result<TocModel, TocError>
    decreases rest.len(),
{
    if rest.len() == 0 {
        Ok(known)
    } else {
        match toc_line(known, rest[0]) {
            Ok(next) => toc_read(rest.skip(1), next),
            Err(fault) => Err(fault),
        }
    }
}

/// A manifest names a project exactly where one of its lines declares one,
/// and declares dependencies exactly where one of its lines does, wherever
/// the lines stand.
pub proof fn lemma_manifest_is_read_to_its_end(rest: Seq<Seq<char>>, known: TocModel)
    ensures
        toc_read(rest, known) matches Ok(found) ==> {
            &&& found.project_id > 0 <==> known.project_id > 0 || exists|i: int|
                0 <= i < rest.len() && declares_project(#[trigger] rest[i])
            &&& found.declares_dependencies <==> known.declares_dependencies || exists|i: int|
                0 <= i < rest.len() && declares_dependencies(#[trigger] rest[i])
        },
    decreases rest.len(),
{
    if rest.len() > 0 {
        if let Ok(next) = toc_line(known, rest[0]) {
            let tail = rest.skip(1);
            lemma_manifest_is_read_to_its_end(tail, next);
            if let Ok(found) = toc_read(rest, known) {
                if exists|i: int| 0 <= i < tail.len() && declares_project(#[trigger] tail[i]) {
                    let i = choose|i: int| 0 <= i < tail.len() && declares_project(#[trigger] tail[i]);
                    assert(rest[i + 1] == tail[i]);
                }
                if exists|i: int| 0 <= i < tail.len() && declares_dependencies(#[trigger] tail[i]) {
                    let i = choose|i: int|
                        0 <= i < tail.len() && declares_dependencies(#[trigger] tail[i]);
                    assert(rest[i + 1] == tail[i]);
                }
                if exists|i: int| 0 <= i < rest.len() && declares_project(#[trigger] rest[i]) {
                    let i = choose|i: int| 0 <= i < rest.len() && declares_project(#[trigger] rest[i]);
                    if i > 0 {
                        assert(tail[i - 1] == rest[i]);
                    }
                }
                if exists|i: int| 0 <= i < rest.len() && declares_dependencies(#[trigger] rest[i]) {
                    let i = choose|i: int|
                        0 <= i < rest.len() && declares_dependencies(#[trigger] rest[i]);
                    if i > 0 {
                        assert(tail[i - 1] == rest[i]);
                    }
                }
            }
        }
    }
}

/// What the manifest `content` declares.
pub open spec fn toc_of(content: Seq<char>) -> Result<TocModel, TocError> {
    toc_read(lines(content), TocModel::nothing())
}

/// The view of a result of [`parse_toc`].
pub open spec fn toc_outcome(r: Result<TocInfo, TocError>) -> Result<TocModel, TocError> {
    match r {
        Ok(info) => Ok(info@),
        Err(fault) => Err(fault),
    }
}

fn value_of(line: &Vec<char>, marker: &Vec<char>) -> (r: Vec<char>)
    ensures
        r@ == field_value(line@, marker@),
{
    let bare = remove_all(line, marker);
    trim(&bare)
}

/// The title that the line `line` declares, as [`title_from`] makes it from
/// what replacing the colour codes gave.
fn title_of(line: &Vec<char>) -> (r: Result<String, TocError>)
    ensures
        r is Ok <==> declared_title(line@) is Some,
        r matches Ok(title) ==> declared_title(line@) == Some(title@),
        r matches Err(fault) ==> fault == TocError::ColorPattern,
{
    let marker = to_chars(TITLE_MARKER);
    let value = value_of(line, &marker);
    let open = to_chars("[");
    let reset = to_chars("|r");
    let close = to_chars("]");
    let bare = remove_all(&remove_all(&remove_all(&value, &open), &reset), &close);
    let text = from_chars(&bare);
    title_from(replace_matches(COLOR_CODE_PATTERN, text.as_str(), ""))
}

/// The title after the colour codes were replaced: the text where the
/// replacement succeeded, and [`TocError::ColorPattern`] where the pattern
/// did not compile.
pub fn title_from(replaced: Result<String, regex::Error>) -> (r: Result<String, TocError>)
    ensures
        r is Ok <==> replaced is Ok,
        r matches Ok(title) ==> replaced matches Ok(text) && title == text,
        r matches Err(fault) ==> fault == TocError::ColorPattern,
{
    match replaced {
        Ok(text) => Ok(text),
        Err(_) => Err(TocError::ColorPattern),
    }
}

/// Reads the manifest `content`.
///
/// Returns what its lines declare, and an error where a title is declared
/// and the pattern of the colour codes does not compile.
pub fn parse_toc(content: &str) -> (r: Result<TocInfo, TocError>)
    ensures
        toc_outcome(r) == toc_of(content@),
{
    let text = to_chars(content);
    let all = split_lines(&text);
    let id_marker = to_chars(PROJECT_ID_MARKER);
    let title_marker = to_chars(TITLE_MARKER);
    let version_marker = to_chars(VERSION_MARKER);
    let notes_marker = to_chars(NOTES_MARKER);
    let required_marker = to_chars(REQUIRED_DEPS_MARKER);
    let dependencies_marker = to_chars(DEPENDENCIES_MARKER);
    let mut info = TocInfo {
        project_id: 0,
        title: String::new(),
        version: String::new(),
        notes: String::new(),
        declares_dependencies: false,
    };
    let ghost rows = lines(content@);
    let mut i: usize = 0;
    assert(rows.skip(0) =~= rows);
    assert(info@ == TocModel::nothing());
    while i < all.len()
        invariant
            i <= all.len(),
            views(all@) == rows,
            rows == lines(content@),
            id_marker@ == PROJECT_ID_MARKER@,
            title_marker@ == TITLE_MARKER@,
            version_marker@ == VERSION_MARKER@,
            notes_marker@ == NOTES_MARKER@,
            required_marker@ == REQUIRED_DEPS_MARKER@,
            dependencies_marker@ == DEPENDENCIES_MARKER@,
            toc_of(content@) == toc_read(rows.skip(i as int), info@),
        decreases all.len() - i,
    {
        let line = &all[i];
        let ghost rest = rows.skip(i as int);
        assert(rest[0] == line@);
        assert(rest.skip(1) =~= rows.skip(i + 1));
        if starts_with(line, &required_marker) || starts_with(line, &dependencies_marker) {
            info.declares_dependencies = true;
        } else if starts_with(line, &id_marker) {
            let value = value_of(line, &id_marker);
            match parse_u32(&value) {
                Some(id) => {
                    if id > 0 {
                        info.project_id = id;
                    }
                },
                None => {},
            }
        } else if starts_with(line, &title_marker) {
            match title_of(line) {
                Ok(title) => {
                    info.title = title;
                },
                Err(fault) => {
                    return Err(fault);
                },
            }
        } else if starts_with(line, &version_marker) {
            info.version = from_chars(&value_of(line, &version_marker));
        } else if starts_with(line, &notes_marker) {
            info.notes = from_chars(&value_of(line, &notes_marker));
        }
        i += 1;
    }
    Ok(info)
}

/// What to do with a manifest that was read.
#[derive(Debug, Clone, Copy, PartialEq, Eq, Structural)]
pub enum Verdict {
    /// Pass it over: its directory declares dependencies and names no project.
    SkipDependency,
    /// Pass it over: an addon of its title is gathered already.
    SkipDuplicate,
    /// It names no project: look its title up in the catalog, then add it.
    LookUp,
    /// Add it under the project that it names.
    Add,
}

/// The addons gathered so far, as plain values.
pub struct ScanModel {
    /// One row for each addon, in the order in which they were added.
    pub rows: Seq<RowModel>,
    /// Whether a manifest of the directory at hand declared dependencies.
    pub in_dependency_dir: bool,
}

impl ScanModel {
    /// Every row is the row of an addon, and no two rows have one title.
    pub open spec fn wf(self) -> bool {
        &&& forall|i: int| 0 <= i < self.rows.len() ==> #[trigger] self.rows[i] is Data
        &&& forall|i: int, j: int|
            0 <= i < j < self.rows.len() ==> (#[trigger] self.rows[i]).name() != (
            #[trigger] self.rows[j]).name()
    }

    /// Whether an addon of the title `title` is gathered.
    pub open spec fn has_title(self, title: Seq<char>) -> bool {
        exists|i: int| 0 <= i < self.rows.len() && (#[trigger] self.rows[i]).name() == title
    }

    /// Nothing gathered, and no directory at hand.
    pub open spec fn empty() -> ScanModel {
        ScanModel { rows: Seq::empty(), in_dependency_dir: false }
    }

    /// The scan comes to the next directory.
    pub open spec fn entered(self) -> ScanModel {
        ScanModel { in_dependency_dir: false, ..self }
    }

    /// The scan meets the manifest `info`. Once a manifest of a directory
    /// declares dependencies, the directory counts as one that does.
    pub open spec fn examined(self, info: TocModel) -> (ScanModel, Verdict) {
        let dependency = self.in_dependency_dir || info.declares_dependencies;
        (
            ScanModel { in_dependency_dir: dependency, ..self },
            if dependency && info.project_id == 0 {
                Verdict::SkipDependency
            } else if self.has_title(info.title) {
                Verdict::SkipDuplicate
            } else if info.project_id == 0 {
                Verdict::LookUp
            } else {
                Verdict::Add
            },
        )
    }

    /// The row of an addon that the scan adds; nothing is known of its downloads.
    pub open spec fn row(project_id: u32, title: Seq<char>, version: Seq<char>, notes: Seq<char>) -> RowModel {
        RowModel::Data { id: project_id, name: title, version, summary: notes, download_count: 0 }
    }

    /// The scan adds an addon, unless one of its title is gathered already.
    pub open spec fn added(
        self,
        project_id: u32,
        title: Seq<char>,
        version: Seq<char>,
        notes: Seq<char>,
    ) -> ScanModel {
        if self.has_title(title) {
            self
        } else {
            ScanModel { rows: self.rows.push(Self::row(project_id, title, version, notes)), ..self }
        }
    }
}

/// A scan of the installation directory: the addons gathered so far, at
/// most one of each title.
#[derive(Debug)]
pub struct InstalledScan {
    rows: Vec<ModRow>,
    in_dependency_dir: bool,
}

impl View for InstalledScan {
    type V = ScanModel;

    closed spec fn view(&self) -> ScanModel {
        ScanModel { rows: views(self.rows@), in_dependency_dir: self.in_dependency_dir }
    }
}

impl InstalledScan {
    /// A scan that has gathered nothing.
    pub fn new() -> (scan: Self)
        ensures
            scan@ == ScanModel::empty(),
            scan@.wf(),
    {
        let scan = InstalledScan { rows: Vec::new(), in_dependency_dir: false };
        assert(scan@.rows =~= Seq::<RowModel>::empty());
        scan
    }

    /// The number of addons gathered.
    pub fn len(&self) -> (n: usize)
        ensures
            n == self@.rows.len(),
    {
        self.rows.len()
    }

    /// Whether an addon of the title `title` is gathered.
    pub fn has_title(&self, title: &str) -> (r: bool)
        ensures
            r == self@.has_title(title@),
    {
        let wanted = to_chars(title);
        let mut i: usize = 0;
        while i < self.rows.len()
            invariant
                i <= self.rows.len(),
                wanted@ == title@,
                forall|k: int| 0 <= k < i ==> (#[trigger] self@.rows[k]).name() != title@,
            decreases self.rows.len() - i,
        {
            let found = match &self.rows[i] {
                ModRow::Header { name, .. } => same_chars(&to_chars(name.as_str()), &wanted),
                ModRow::Data { name, .. } => same_chars(&to_chars(name.as_str()), &wanted),
            };
            assert(self@.rows[i as int] == self.rows[i as int]@);
            if found {
                return true;
            }
            i += 1;
        }
        false
    }

    /// The scan comes to the next directory.
    pub fn enter_directory(&mut self)
        ensures
            final(self)@ == old(self)@.entered(),
            old(self)@.wf() ==> final(self)@.wf(),
    {
        self.in_dependency_dir = false;
    }

    /// The scan meets the manifest `info`: what to do with it.
    pub fn examine(&mut self, info: &TocInfo) -> (verdict: Verdict)
        ensures
            (final(self)@, verdict) == old(self)@.examined(info@),
            old(self)@.wf() ==> final(self)@.wf(),
    {
        if info.declares_dependencies {
            self.in_dependency_dir = true;
        }
        if self.in_dependency_dir && info.project_id == 0 {
            Verdict::SkipDependency
        } else if self.has_title(info.title.as_str()) {
            Verdict::SkipDuplicate
        } else if info.project_id == 0 {
            Verdict::LookUp
        } else {
            Verdict::Add
        }
    }

    /// Adds an addon, unless one of its title is gathered already; says
    /// whether it was added.
    pub fn add(&mut self, project_id: u32, title: &str, version: &str, notes: &str) -> (added: bool)
        ensures
            final(self)@ == old(self)@.added(project_id, title@, version@, notes@),
            added == !old(self)@.has_title(title@),
            old(self)@.wf() ==> final(self)@.wf(),
    {
        if self.has_title(title) {
            return false;
        }
        let row = ModRow::new_data(project_id, title, version, notes, 0);
        let ghost before = self@.rows;
        self.rows.push(row);
        assert(self@.rows =~= before.push(row@));
        assert(old(self)@.wf() ==> self@.wf()) by {
            let after = self@.rows;
            if old(self)@.wf() {
                assert forall|i: int, j: int| 0 <= i < j < after.len() implies (
                #[trigger] after[i]).name() != (#[trigger] after[j]).name() by {
                    if j == before.len() {
                        assert(before[i].name() != title@);
                    } else {
                        assert(before[i].name() != before[j].name());
                    }
                }
            }
        }
        true
    }

    /// The rows gathered, in the order in which they were added.
    pub fn into_rows(self) -> (rows: Vec<ModRow>)
        ensures
            views(rows@) == self@.rows,
    {
        self.rows
    }
}

/// The version shown for an addon: that of its change log where it has one,
/// else that of its manifest.
pub fn preferred_version(changelog: &str, manifest: &str) -> (r: String)
    ensures
        r@ == if changelog@.len() > 0 {
            changelog@
        } else {
            manifest@
        },
{
    if changelog.unicode_len() > 0 {
        changelog.to_owned()
    } else {
        manifest.to_owned()
    }
}

/// The first of the lines `rows` that starts with `prefix`.
pub open spec fn first_starting_with(rows: Seq<Seq<char>>, prefix: Seq<char>) -> Option<Seq<char>>
    decreases rows.len(),
{
    if rows.len() == 0 {
        None
    } else if prefix.is_prefix_of(rows[0]) {
        Some(rows[0])
    } else {
        first_starting_with(rows.skip(1), prefix)
    }
}

/// The first line of `content` that starts with `prefix`.
fn first_line_with(content: &str, prefix: &str) -> (r: Option<Vec<char>>)
    ensures
        r is Some <==> first_starting_with(lines(content@), prefix@) is Some,
        r matches Some(line) ==> first_starting_with(lines(content@), prefix@) == Some(line@),
{
    let text = to_chars(content);
    let mut all = split_lines(&text);
    let start = to_chars(prefix);
    let ghost rows = lines(content@);
    let mut i: usize = 0;
    assert(rows.skip(0) =~= rows);
    while i < all.len()
        invariant
            i <= all.len(),
            views(all@) == rows,
            rows == lines(content@),
            start@ == prefix@,
            first_starting_with(rows, prefix@) == first_starting_with(
                rows.skip(i as int),
                prefix@,
            ),
        decreases all.len() - i,
    {
        assert(rows.skip(i as int)[0] == all[i as int]@);
        if starts_with(&all[i], &start) {
            let line = all.swap_remove(i);
            return Some(line);
        }
        assert(rows.skip(i as int).skip(1) =~= rows.skip(i + 1));
        i += 1;
    }
    None
}

/// The part of `parts` at index `i`, or the empty text where there is none.
pub open spec fn part_or_empty(parts: Seq<Seq<char>>, i: int) -> Seq<char> {
    if 0 <= i < parts.len() {
        parts[i]
    } else {
        Seq::empty()
    }
}

fn take_part(parts: &Vec<Vec<char>>, i: usize) -> (r: Vec<char>)
    ensures
        r@ == part_or_empty(views(parts@), i as int),
{
    if i < parts.len() {
        copy_range(&parts[i], 0, parts[i].len())
    } else {
        Vec::new()
    }
}

/// The version that a change log in Markdown names: on its first line that
/// starts with `## [`, the text after the first opening bracket, up to the
/// next bracket of either kind. Empty where it has no such line.
pub open spec fn md_version(content: Seq<char>) -> Seq<char> {
    match first_starting_with(lines(content), "## ["@) {
        None => Seq::empty(),
        Some(line) => part_or_empty(
            pieces(part_or_empty(pieces(line, '[', Seq::empty()), 1), ']', Seq::empty()),
            0,
        ),
    }
}

/// The version that a change log in Markdown names.
pub fn changelog_md_version(content: &str) -> (r: String)
    ensures
        r@ == md_version(content@),
{
    match first_line_with(content, "## [") {
        None => String::new(),
        Some(line) => {
            let outer = split_on(&line, '[');
            let inner = split_on(&take_part(&outer, 1), ']');
            from_chars(&take_part(&inner, 0))
        },
    }
}

/// Why a change log names no version.
#[derive(Debug, Clone, Copy, PartialEq, Eq, Structural)]
pub enum ChangelogError {
    /// The first heading holds no blank, and so no word after its mark.
    HeadingWithoutVersion,
}

impl ChangelogError {
    /// What the fault says to the user.
    pub fn message(&self) -> (text: String)
        ensures
            text@ == "the first heading of the change log names no version"@,
    {
        "the first heading of the change log names no version".to_owned()
    }
}

/// The version that a change log in plain text names: on its first line
/// that starts with `##`, the text between the first blank and the second.
/// Empty where it has no such line; an error where the line has no blank.
pub open spec fn txt_version(content: Seq<char>) -> Result<Seq<char>, ChangelogError> {
    match first_starting_with(lines(content), "##"@) {
        None => Ok(Seq::empty()),
        Some(line) => if pieces(line, ' ', Seq::empty()).len() >= 2 {
            Ok(pieces(line, ' ', Seq::empty())[1])
        } else {
            Err(ChangelogError::HeadingWithoutVersion)
        },
    }
}

/// The view of a result of [`changelog_txt_version`].
pub open spec fn version_outcome(r: Result<String, ChangelogError>) -> Result<
    Seq<char>,
    ChangelogError,
> {
    match r {
        Ok(version) => Ok(version@),
        Err(fault) => Err(fault),
    }
}

/// The version that a change log in plain text names.
pub fn changelog_txt_version(content: &str) -> (r: Result<String, ChangelogError>)
    ensures
        version_outcome(r) == txt_version(content@),
{
    match first_line_with(content, "##") {
        None => Ok(String::new()),
        Some(line) => {
            let found = split_on(&line, ' ');
            if found.len() >= 2 {
                Ok(from_chars(&take_part(&found, 1)))
            } else {
                Err(ChangelogError::HeadingWithoutVersion)
            }
        },
    }
}

/// The version that a change log in Lua names: on its first line that
/// starts with `v.`, the text after that mark, up to the next `v.`. Empty
/// where it has no such line.
pub open spec fn lua_version(content: Seq<char>) -> Seq<char> {
    match first_starting_with(lines(content), "v."@) {
        None => Seq::empty(),
        Some(line) => part_or_empty(parts(line, "v."@, Seq::empty()), 1),
    }
}

/// The version that a change log in Lua names.
pub fn changelog_lua_version(content: &str) -> (r: String)
    ensures
        r@ == lua_version(content@),
{
    match first_line_with(content, "v.") {
        None => String::new(),
        Some(line) => {
            let mark = to_chars("v.");
            let found = split_on_text(&line, &mark);
            from_chars(&take_part(&found, 1))
        },
    }
}

/// What `str::to_lowercase` returns for a text.
pub uninterp spec fn lowercased(text: Seq<char>) -> Seq<char>;

/// `str::to_lowercase`: the result is the one that [`lowercased`] names.
#[verifier::external_body]
fn to_lowercase(text: &str) -> (r: String)
    ensures
        r@ == lowercased(text@),
{
    text.to_lowercase()
}

/// The identifier at the first index at which `names` holds `wanted`; 0
/// where it holds it nowhere, or where `ids` is too short to have that index.
pub open spec fn id_of_first(ids: Seq<u32>, names: Seq<Seq<char>>, wanted: Seq<char>) -> u32
    decreases names.len(),
{
    if names.len() == 0 || ids.len() == 0 {
        0
    } else if names[0] == wanted {
        ids[0]
    } else {
        id_of_first(ids.skip(1), names.skip(1), wanted)
    }
}

/// The identifier at the first index at which `names` holds `wanted`, or 0.
pub fn first_with_name(ids: &Vec<u32>, names: &Vec<String>, wanted: &str) -> (id: u32)
    ensures
        id == id_of_first(ids@, views(names@), wanted@),
{
    let target = to_chars(wanted);
    let ghost all = views(names@);
    let mut i: usize = 0;
    assert(ids@.skip(0) =~= ids@);
    assert(all.skip(0) =~= all);
    while i < names.len() && i < ids.len()
        invariant
            i <= names.len(),
            i <= ids.len(),
            all == views(names@),
            target@ == wanted@,
            id_of_first(ids@, all, wanted@) == id_of_first(
                ids@.skip(i as int),
                all.skip(i as int),
                wanted@,
            ),
        decreases names.len() - i,
    {
        let name = to_chars(names[i].as_str());
        assert(all.skip(i as int)[0] == name@);
        if same_chars(&name, &target) {
            return ids[i];
        }
        assert(ids@.skip(i as int).skip(1) =~= ids@.skip(i + 1));
        assert(all.skip(i as int).skip(1) =~= all.skip(i + 1));
        i += 1;
    }
    0
}

/// The identifiers of `mods`, in order.
pub open spec fn ids_of(mods: Seq<Mod>) -> Seq<u32> {
    Seq::new(mods.len(), |i: int| mods[i].id)
}

/// The names of `mods` in lower case, in order.
pub open spec fn lowercased_names(mods: Seq<Mod>) -> Seq<Seq<char>> {
    Seq::new(mods.len(), |i: int| lowercased(mods[i].name@))
}

/// The identifier of the first of `mods` whose name is `name` but for the
/// case of its letters; 0 where there is none.
pub fn find_id_by_name(mods: &Vec<Mod>, name: &str) -> (id: u32)
    ensures
        id == id_of_first(ids_of(mods@), lowercased_names(mods@), lowercased(name@)),
{
    let mut ids: Vec<u32> = Vec::new();
    let mut names: Vec<String> = Vec::new();
    let mut i: usize = 0;
    while i < mods.len()
        invariant
            i <= mods.len(),
            ids.len() == i,
            names.len() == i,
            forall|k: int| 0 <= k < i ==> #[trigger] ids[k] == mods[k].id,
            forall|k: int| 0 <= k < i ==> (#[trigger] names[k])@ == lowercased(mods[k].name@),
        decreases mods.len() - i,
    {
        ids.push(mods[i].id);
        names.push(to_lowercase(mods[i].name.as_str()));
        i += 1;
    }
    assert(ids@ =~= ids_of(mods@));
    assert(views(names@) =~= lowercased_names(mods@));
    let wanted = to_lowercase(name);
    first_with_name(&ids, &names, wanted.as_str())
}

} // verus!
