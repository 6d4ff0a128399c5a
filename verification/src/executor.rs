//! The work of a command, piece by piece.
//!
//! A command that reaches outside the program (the disk, the catalog) does
//! so in pieces. [`Plan`] holds the pieces of one command in their order and
//! hands them out one at a time: whoever runs the command asks for the next
//! piece, does it, and asks again. With each question comes the request
//! flag of the prompt; once it is set, no further piece is handed out and
//! the command ends as interrupted.
//!
//! What a search shows of the addons that the catalog found is written
//! here too: [`report_search`].

use crate::cli_loop::CtrlCState;
use crate::command::{id_entries, parse_id_list, Command, CommandModel, IdEntry, IdEntryModel};
use crate::mod_table::{data_rows, header_row, ModTable, RowModel, table_text};
use crate::models::Mod;
use crate::text::{
    append_chars, contains_text, decimal, from_chars, occurs_at, push_decimal, to_chars, views,
};
use vstd::prelude::*;

verus! {

/// One piece of work.
#[derive(Debug)]
pub enum Work {
    /// Scan the installation directory and show what is installed.
    ScanInstalled,
    /// Search the catalog with this filter and show what it finds.
    Search(String),
    /// Say that this entry of a list names no addon.
    ReportInvalid(String),
    /// Ask the catalog about the addon with this identifier, and pick its
    /// file for the installed game.
    AskInfo(u32),
    /// Download the file picked for the addon with this identifier, and
    /// unpack it.
    Download(u32),
}

/// What a [`Work`] is, over plain texts.
pub enum WorkModel {
    ScanInstalled,
    Search(Seq<char>),
    ReportInvalid(Seq<char>),
    AskInfo(u32),
    Download(u32),
}

impl View for Work {
    type V = WorkModel;

    open spec fn view(&self) -> WorkModel {
        match *self {
            Work::ScanInstalled => WorkModel::ScanInstalled,
            Work::Search(filter) => WorkModel::Search(filter@),
            Work::ReportInvalid(entry) => WorkModel::ReportInvalid(entry@),
            Work::AskInfo(id) => WorkModel::AskInfo(id),
            Work::Download(id) => WorkModel::Download(id),
        }
    }
}

/// The work for one entry of a list of identifiers: an addon is asked
/// about, then downloaded; an entry that names none is reported.
pub open spec fn entry_works(entry: IdEntryModel) -> Seq<WorkModel> {
    match entry {
        IdEntryModel::Valid(id) => seq![WorkModel::AskInfo(id), WorkModel::Download(id)],
        IdEntryModel::Invalid(text) => seq![WorkModel::ReportInvalid(text)],
    }
}

/// The work for the entries of a list, entry by entry.
pub open spec fn fetch_works(entries: Seq<IdEntryModel>) -> Seq<WorkModel>
    decreases entries.len(),
{
    if entries.len() == 0 {
        Seq::empty()
    } else {
        fetch_works(entries.drop_last()) + entry_works(entries.last())
    }
}

/// The work of `command`. A command that only says something has none.
pub open spec fn planned_works(command: CommandModel) -> Seq<WorkModel> {
    match command {
        CommandModel::View => seq![WorkModel::ScanInstalled],
        CommandModel::Search { name: Some(filter) } => seq![WorkModel::Search(filter)],
        CommandModel::Get { ids: Some(ids) } => fetch_works(id_entries(ids)),
        _ => Seq::empty(),
    }
}

/// The answer to the question for the next piece.
#[derive(Debug)]
pub enum Next {
    /// Do this piece, then ask again.
    Run(Work),
    /// The command was asked to stop: it ends as interrupted.
    Interrupted,
    /// No piece is left: the command is done.
    Finished,
}

/// What a [`Next`] is, over plain texts.
pub enum NextModel {
    Run(WorkModel),
    Interrupted,
    Finished,
}

impl View for Next {
    type V = NextModel;

    open spec fn view(&self) -> NextModel {
        match *self {
            Next::Run(work) => NextModel::Run(work@),
            Next::Interrupted => NextModel::Interrupted,
            Next::Finished => NextModel::Finished,
        }
    }
}

/// The pieces of a command and how many of them were handed out.
pub struct PlanModel {
    pub works: Seq<WorkModel>,
    pub done: nat,
}

impl PlanModel {
    /// The answer to the question for the next piece: with no piece left
    /// the command is done; with the request flag set it is interrupted;
    /// else the next piece is due.
    pub open spec fn next(self, interrupt_requested: bool) -> NextModel {
        if self.done >= self.works.len() {
            NextModel::Finished
        } else if interrupt_requested {
            NextModel::Interrupted
        } else {
            NextModel::Run(self.works[self.done as int])
        }
    }

    /// The plan after that answer: a piece that was handed out counts as
    /// done.
    pub open spec fn after(self, interrupt_requested: bool) -> PlanModel {
        if self.next(interrupt_requested) is Run {
            PlanModel { done: self.done + 1, ..self }
        } else {
            self
        }
    }
}

/// The pieces of one command, handed out in order.
pub struct Plan {
    works: Vec<Work>,
    done: usize,
}

impl View for Plan {
    type V = PlanModel;

    closed spec fn view(&self) -> PlanModel {
        PlanModel { works: views(self.works@), done: self.done as nat }
    }
}

fn copy_of(work: &Work) -> (r: Work)
    ensures
        r@ == work@,
{
    match work {
        Work::ScanInstalled => Work::ScanInstalled,
        Work::Search(filter) => Work::Search(filter.clone()),
        Work::ReportInvalid(entry) => Work::ReportInvalid(entry.clone()),
        Work::AskInfo(id) => Work::AskInfo(*id),
        Work::Download(id) => Work::Download(*id),
    }
}

fn works_of(entries: Vec<IdEntry>) -> (r: Vec<Work>)
    ensures
        views(r@) == fetch_works(views(entries@)),
{
    let ghost all = views(entries@);
    let mut out: Vec<Work> = Vec::new();
    let mut i: usize = 0;
    assert(all.take(0) =~= Seq::empty());
    assert(views(out@) =~= Seq::empty());
    while i < entries.len()
        invariant
            i <= entries.len(),
            all == views(entries@),
            views(out@) == fetch_works(all.take(i as int)),
        decreases entries.len() - i,
    {
        let ghost before = views(out@);
        proof {
            assert(all.take(i + 1).drop_last() =~= all.take(i as int));
            assert(all.take(i + 1).last() == entries[i as int]@);
        }
        match &entries[i] {
            IdEntry::Valid(id) => {
                out.push(Work::AskInfo(*id));
                out.push(Work::Download(*id));
            },
            IdEntry::Invalid(text) => {
                out.push(Work::ReportInvalid(text.clone()));
            },
        }
        assert(views(out@) =~= before + entry_works(entries[i as int]@));
        i += 1;
    }
    assert(all.take(entries.len() as int) =~= all);
    out
}

impl Plan {
    /// The plan of `command`, with nothing done yet.
    pub fn new(command: &Command) -> (r: Plan)
        ensures
            r@ == (PlanModel { works: planned_works(command@), done: 0 }),
    {
        let mut works: Vec<Work> = Vec::new();
        assert(views(works@) =~= Seq::empty());
        match command {
            Command::View => {
                works.push(Work::ScanInstalled);
                assert(views(works@) =~= seq![WorkModel::ScanInstalled]);
            },
            Command::Search { name: Some(filter) } => {
                works.push(Work::Search(filter.clone()));
                assert(views(works@) =~= seq![WorkModel::Search(filter@)]);
            },
            Command::Get { ids: Some(ids) } => {
                works = works_of(parse_id_list(ids.as_str()));
            },
            _ => {},
        }
        Plan { works, done: 0 }
    }

    /// How many pieces are still to be handed out.
    pub fn remaining(&self) -> (r: usize)
        ensures
            r == if self@.done >= self@.works.len() {
                0
            } else {
                self@.works.len() - self@.done
            },
    {
        if self.done >= self.works.len() {
            0
        } else {
            self.works.len() - self.done
        }
    }

    /// Answers the question for the next piece, given the request flag of
    /// the prompt as it stands now.
    pub fn next(&mut self, interrupt_requested: bool) -> (r: Next)
        ensures
            r@ == old(self)@.next(interrupt_requested),
            final(self)@ == old(self)@.after(interrupt_requested),
    {
        if self.done >= self.works.len() {
            Next::Finished
        } else if interrupt_requested {
            Next::Interrupted
        } else {
            let work = copy_of(&self.works[self.done]);
            self.done += 1;
            Next::Run(work)
        }
    }

    /// Answers the question for the next piece under the state of the
    /// prompt: the request flag is read from `state` as it stands now.
    pub fn proceed(&mut self, state: &CtrlCState) -> (r: Next)
        ensures
            r@ == old(self)@.next(state@.interrupt_command),
            final(self)@ == old(self)@.after(state@.interrupt_command),
    {
        self.next(state.interrupt_command())
    }
}

/// Once the command was asked to stop, no piece is handed out, and the plan
/// stays as it is.
pub proof fn lemma_request_ends_the_work(plan: PlanModel)
    ensures
        !(plan.next(true) is Run),
        plan.after(true) == plan,
{
}

/// The plan after `count` answers, none of them with the request flag set.
pub open spec fn answered(plan: PlanModel, count: nat) -> PlanModel
    decreases count,
{
    if count == 0 {
        plan
    } else {
        answered(plan, (count - 1) as nat).after(false)
    }
}

/// As long as the command is not asked to stop, the pieces are handed out
/// in their order, each once: after `count` answers the first `count`
/// pieces are done and the next one is due.
pub proof fn lemma_pieces_come_in_order(works: Seq<WorkModel>, count: nat)
    requires
        count < works.len(),
    ensures
        answered(PlanModel { works, done: 0 }, count) == (PlanModel { works, done: count }),
        answered(PlanModel { works, done: 0 }, count).next(false) == NextModel::Run(
            works[count as int],
        ),
    decreases count,
{
    if count > 0 {
        lemma_pieces_come_in_order(works, (count - 1) as nat);
    }
}

/// The work for a list starts with the work for each shorter list.
pub proof fn lemma_fetch_works_grow(entries: Seq<IdEntryModel>, n: int)
    requires
        0 <= n <= entries.len(),
    ensures
        fetch_works(entries.take(n)).is_prefix_of(fetch_works(entries)),
    decreases entries.len(),
{
    if n == entries.len() {
        assert(entries.take(n) =~= entries);
    } else {
        lemma_fetch_works_grow(entries.drop_last(), n);
        assert(entries.drop_last().take(n) =~= entries.take(n));
    }
}

/// Where the work for the entry `i` of a list starts among the work for the
/// list.
pub open spec fn start_of(entries: Seq<IdEntryModel>, i: int) -> int {
    fetch_works(entries.take(i)).len() as int
}

/// Every entry of a list has its work, whole and in the order of the list:
/// the work for the entry `i` stands where the work for the entries before
/// it ends.
pub proof fn lemma_each_entry_has_its_work(entries: Seq<IdEntryModel>, i: int)
    requires
        0 <= i < entries.len(),
    ensures
        start_of(entries, i) + entry_works(entries[i]).len() == start_of(entries, i + 1),
        start_of(entries, i + 1) <= fetch_works(entries).len(),
        fetch_works(entries).subrange(start_of(entries, i), start_of(entries, i + 1))
            == entry_works(entries[i]),
{
    let upto = entries.take(i + 1);
    assert(upto.drop_last() =~= entries.take(i));
    assert(upto.last() == entries[i]);
    assert(fetch_works(upto) == fetch_works(entries.take(i)) + entry_works(entries[i]));
    lemma_fetch_works_grow(entries, i + 1);
    let whole = fetch_works(entries);
    let first = fetch_works(entries.take(i));
    let own = entry_works(entries[i]);
    let both = fetch_works(upto);
    assert(both =~= whole.subrange(0, both.len() as int));
    assert forall|j: int| 0 <= j < own.len() implies whole[first.len() + j] == own[j] by {
        assert(whole.subrange(0, both.len() as int)[first.len() + j] == both[first.len() + j]);
        assert((first + own)[first.len() + j] == own[j]);
    }
    assert(fetch_works(entries).subrange(start_of(entries, i), start_of(entries, i + 1))
        =~= entry_works(entries[i]));
}

/// A download never comes first, and never without its answer: the piece
/// before it asks the catalog about the same addon.
pub proof fn lemma_download_follows_its_answer(entries: Seq<IdEntryModel>, k: int, id: u32)
    requires
        0 <= k < fetch_works(entries).len(),
        fetch_works(entries)[k] == WorkModel::Download(id),
    ensures
        k > 0,
        fetch_works(entries)[k - 1] == WorkModel::AskInfo(id),
    decreases entries.len(),
{
    let before = fetch_works(entries.drop_last());
    if k < before.len() {
        lemma_download_follows_its_answer(entries.drop_last(), k, id);
    }
}

/// The first text of a search report: how many addons were found.
pub open spec fn search_headline(count: nat) -> Seq<char> {
    "\nSearch Results ("@ + decimal(count) + " total):\n"@
}

/// The text of a search report for the addon `m`: its name, its
/// identifier and its summary.
pub open spec fn result_line(m: Mod) -> Seq<char> {
    "  - "@ + m.name@ + " (ID: "@ + decimal(m.id as nat) + "). About: "@ + m.summary@ + "\n"@
}

/// The report of a search that found the addons `mods`, as the texts to
/// write one after the other: the headline, a text for each addon in the
/// order of the list, then the table of the addons under its header.
pub open spec fn search_report(mods: Seq<Mod>) -> Seq<Seq<char>> {
    seq![search_headline(mods.len())] + Seq::new(mods.len(), |i: int| result_line(mods[i]))
        + table_text(Seq::<RowModel>::empty().push(header_row()) + data_rows(mods))
}

fn result_chars(m: &Mod) -> (r: Vec<char>)
    ensures
        r@ == result_line(*m),
{
    let mut out = to_chars("  - ");
    append_chars(&mut out, &to_chars(m.name.as_str()));
    append_chars(&mut out, &to_chars(" (ID: "));
    push_decimal(&mut out, m.id as u64);
    append_chars(&mut out, &to_chars("). About: "));
    append_chars(&mut out, &to_chars(m.summary.as_str()));
    append_chars(&mut out, &to_chars("\n"));
    out
}

/// Writes the report of a search that found the addons `mods`.
pub fn report_search(mods: Vec<Mod>) -> (texts: Vec<String>)
    ensures
        views(texts@) == search_report(mods@),
{
    let mut headline = to_chars("\nSearch Results (");
    push_decimal(&mut headline, mods.len() as u64);
    append_chars(&mut headline, &to_chars(" total):\n"));
    let mut texts: Vec<String> = Vec::new();
    texts.push(from_chars(&headline));
    let mut i: usize = 0;
    while i < mods.len()
        invariant
            i <= mods.len(),
            texts.len() == 1 + i,
            texts[0]@ == search_headline(mods.len() as nat),
            forall|k: int| 1 <= k <= i ==> (#[trigger] texts[k])@ == result_line(mods[k - 1]),
        decreases mods.len() - i,
    {
        texts.push(from_chars(&result_chars(&mods[i])));
        i += 1;
    }
    let ghost found = mods@;
    let ghost head = views(texts@);
    assert(head =~= seq![search_headline(found.len())] + Seq::new(
        found.len(),
        |i: int| result_line(found[i]),
    ));
    let mut table = ModTable::new();
    let _ = table.populate_mods_table(mods);
    let mut lines = table.format_table();
    assert(table@ =~= Seq::<RowModel>::empty().push(header_row()) + data_rows(found));
    texts.append(&mut lines);
    assert(views(texts@) =~= search_report(found));
    texts
}

/// A search report names every addon found: the text for the addon `i` of
/// the list holds its name as one piece, whatever the name is.
pub proof fn lemma_report_names_each_addon(mods: Seq<Mod>, i: int)
    requires
        0 <= i < mods.len(),
    ensures
        search_report(mods)[1 + i] == result_line(mods[i]),
        contains_text(search_report(mods)[1 + i], mods[i].name@),
{
    let line = result_line(mods[i]);
    let name = mods[i].name@;
    let at = "  - "@.len() as int;
    assert(line.subrange(at, at + name.len()) =~= name);
    assert(occurs_at(line, at, name));
}

} // verus!
