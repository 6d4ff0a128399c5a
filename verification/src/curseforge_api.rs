//! The addresses of the addon catalog and of its files, and the names in
//! an archive.

use crate::text::{
    append_chars, copy_range, decimal, from_chars, from_chars_all, i32_to_decimal,
    lemma_pieces_not_empty, pieces, same_chars, signed_decimal, split_on, to_chars,
    u32_to_decimal, views,
};
use vstd::prelude::*;
use vstd::utf8::encode_utf8;

verus! {

/// The address of the games of the catalog.
pub const GAMES_URL: &'static str = "https://api.curseforge.com/v1/games";

/// The address of the addons of the catalog.
pub const MODS_URL: &'static str = "https://api.curseforge.com/v1/mods";

/// The address of the files of the catalog.
pub const FILES_URL: &'static str = "https://edge.forgecdn.net/files";

/// The address of the game `game_id`.
pub fn game_info_url(game_id: i32) -> (url: String)
    ensures
        url@ == GAMES_URL@ + seq!['/'] + signed_decimal(game_id as int),
{
    let mut url = to_chars(GAMES_URL);
    url.push('/');
    append_chars(&mut url, &i32_to_decimal(game_id));
    from_chars(&url)
}

/// The address of the list of games.
pub fn games_url() -> (url: String)
    ensures
        url@ == GAMES_URL@,
{
    GAMES_URL.to_owned()
}

/// The address of the addon `mod_id`.
pub fn mod_info_url(mod_id: u32) -> (url: String)
    ensures
        url@ == MODS_URL@ + seq!['/'] + decimal(mod_id as nat),
{
    let mut url = to_chars(MODS_URL);
    url.push('/');
    append_chars(&mut url, &u32_to_decimal(mod_id));
    from_chars(&url)
}

/// The address of a search among the addons of the game `game_id`; the
/// filter goes into the address as it stands.
pub fn search_url(game_id: i32, search_filter: &str) -> (url: String)
    ensures
        url@ == MODS_URL@ + "/search?gameId="@ + signed_decimal(game_id as int)
            + "&searchFilter="@ + search_filter@,
{
    let mut url = to_chars(MODS_URL);
    append_chars(&mut url, &to_chars("/search?gameId="));
    append_chars(&mut url, &i32_to_decimal(game_id));
    append_chars(&mut url, &to_chars("&searchFilter="));
    append_chars(&mut url, &to_chars(search_filter));
    from_chars(&url)
}

/// Whether the byte `b` stands for itself in an address: a letter or a
/// digit of ASCII, a hyphen, a full stop, an underscore or a tilde.
pub open spec fn unreserved(b: u8) -> bool {
    ||| 0x30 <= b <= 0x39
    ||| 0x41 <= b <= 0x5A
    ||| 0x61 <= b <= 0x7A
    ||| b == 0x2D
    ||| b == 0x2E
    ||| b == 0x5F
    ||| b == 0x7E
}

/// The digit that writes `n`, a number below 16, to the base 16, in capitals.
pub open spec fn hex_digit(n: u8) -> char {
    if n < 10 {
        (0x30 + n) as u8 as char
    } else {
        (0x41 + n - 10) as u8 as char
    }
}

/// The byte `b` as it stands in an address: itself where it is
/// unreserved, and else a percent sign and its two digits to the base 16.
pub open spec fn encoded_byte(b: u8) -> Seq<char> {
    if unreserved(b) {
        seq![b as char]
    } else {
        seq!['%', hex_digit(b / 16), hex_digit(b % 16)]
    }
}

/// The bytes `bytes` as they stand in an address.
pub open spec fn percent_encoded(bytes: Seq<u8>) -> Seq<char>
    decreases bytes.len(),
{
    if bytes.len() == 0 {
        Seq::empty()
    } else {
        percent_encoded(bytes.drop_last()) + encoded_byte(bytes.last())
    }
}

/// `urlencoding::encode`: every byte of the text in UTF-8 stands for
/// itself where it is unreserved, and else is written as a percent sign and
/// two digits to the base 16, in capitals.
#[verifier::external_body]
fn percent_encode(text: &str) -> (r: String)
    ensures
        r@ == percent_encoded(encode_utf8(text@)),
{
    urlencoding::encode(text).into_owned()
}

/// The address of the file `file_id` with the name `filename`: the first
/// four digits of the identifier, the digits after them, and the name as it
/// stands in an address. `None` for an identifier of fewer than four digits.
pub open spec fn file_url(file_id: u32, filename: Seq<char>) -> Option<Seq<char>> {
    let digits = decimal(file_id as nat);
    if digits.len() < 4 {
        None
    } else {
        Some(
            FILES_URL@ + seq!['/'] + digits.take(4) + seq!['/'] + digits.skip(4) + seq!['/']
                + percent_encoded(encode_utf8(filename)),
        )
    }
}

/// The address from which the file `file_id` with the name `filename` is
/// fetched.
pub fn download_url(file_id: u32, filename: &str) -> (url: Option<String>)
    ensures
        url is Some <==> file_url(file_id, filename@) is Some,
        url matches Some(text) ==> file_url(file_id, filename@) == Some(text@),
{
    let digits = u32_to_decimal(file_id);
    if digits.len() < 4 {
        return None;
    }
    let mut url = to_chars(FILES_URL);
    url.push('/');
    let prefix = copy_range(&digits, 0, 4);
    assert(prefix@ =~= digits@.take(4));
    append_chars(&mut url, &prefix);
    url.push('/');
    let suffix = copy_range(&digits, 4, digits.len());
    assert(suffix@ =~= digits@.skip(4));
    append_chars(&mut url, &suffix);
    url.push('/');
    append_chars(&mut url, &to_chars(percent_encode(filename).as_str()));
    Some(from_chars(&url))
}

/// The path of `name` in the directory `directory`.
pub fn path_in(directory: &str, name: &str) -> (path: String)
    ensures
        path@ == directory@ + seq!['/'] + name@,
{
    let mut path = to_chars(directory);
    path.push('/');
    append_chars(&mut path, &to_chars(name));
    from_chars(&path)
}

/// The first component of the name `name` of an entry of an archive, whose
/// components a slash separates: the slash itself where the name starts
/// with one. `None` for the empty name.
pub open spec fn first_component(name: Seq<char>) -> Option<Seq<char>> {
    if name.len() == 0 {
        None
    } else if name[0] == '/' {
        Some(seq!['/'])
    } else {
        Some(pieces(name, '/', Seq::empty())[0])
    }
}

/// The first components of the names `names`, each once, in the order in
/// which they first come.
pub open spec fn top_level(names: Seq<Seq<char>>) -> Seq<Seq<char>>
    decreases names.len(),
{
    if names.len() == 0 {
        Seq::empty()
    } else {
        let before = top_level(names.drop_last());
        match first_component(names.last()) {
            Some(first) => if before.contains(first) {
                before
            } else {
                before.push(first)
            },
            None => before,
        }
    }
}

/// No top-level name comes twice.
pub proof fn lemma_top_level_has_no_duplicates(names: Seq<Seq<char>>)
    ensures
        top_level(names).no_duplicates(),
    decreases names.len(),
{
    if names.len() > 0 {
        lemma_top_level_has_no_duplicates(names.drop_last());
    }
}

/// Every top-level name is the first component of one of the names, and
/// the first component of each name is a top-level name.
pub proof fn lemma_top_level_holds_first_components(names: Seq<Seq<char>>, first: Seq<char>)
    ensures
        top_level(names).contains(first) <==> exists|i: int|
            0 <= i < names.len() && first_component(#[trigger] names[i]) == Some(first),
    decreases names.len(),
{
    if names.len() > 0 {
        let before = names.drop_last();
        lemma_top_level_holds_first_components(before, first);
        let found = top_level(names);
        if top_level(before).contains(first) {
            let i = choose|i: int|
                0 <= i < before.len() && first_component(#[trigger] before[i]) == Some(first);
            assert(names[i] == before[i]);
            let at = choose|k: int| 0 <= k < top_level(before).len() && top_level(before)[k] == first;
            assert(found[at] == first);
        } else if first_component(names.last()) == Some(first) {
            assert(found.last() == first);
            assert(names[names.len() - 1] == names.last());
        } else {
            if found.contains(first) {
                let at = choose|k: int| 0 <= k < found.len() && found[k] == first;
                if at < top_level(before).len() {
                    assert(top_level(before)[at] == first);
                }
            }
            if exists|i: int|
                0 <= i < names.len() && first_component(#[trigger] names[i]) == Some(first) {
                let i = choose|i: int|
                    0 <= i < names.len() && first_component(#[trigger] names[i]) == Some(first);
                assert(before[i] == names[i]);
            }
        }
    }
}

fn first_component_of(name: &Vec<char>) -> (r: Option<Vec<char>>)
    ensures
        r is Some <==> first_component(name@) is Some,
        r matches Some(first) ==> first_component(name@) == Some(first@),
{
    if name.len() == 0 {
        None
    } else if name[0] == '/' {
        let mut root: Vec<char> = Vec::new();
        root.push('/');
        assert(root@ =~= seq!['/']);
        Some(root)
    } else {
        let found = split_on(name, '/');
        proof {
            lemma_pieces_not_empty(name@, '/', Seq::empty());
        }
        assert(views(found@)[0] == found[0]@);
        Some(copy_range(&found[0], 0, found[0].len()))
    }
}

fn holds(items: &Vec<Vec<char>>, wanted: &Vec<char>) -> (r: bool)
    ensures
        r == views(items@).contains(wanted@),
{
    let mut i: usize = 0;
    while i < items.len()
        invariant
            i <= items.len(),
            forall|k: int| 0 <= k < i ==> views(items@)[k] != wanted@,
        decreases items.len() - i,
    {
        assert(views(items@)[i as int] == items[i as int]@);
        if same_chars(&items[i], wanted) {
            return true;
        }
        i += 1;
    }
    false
}

/// The top-level names of an archive whose entries have the names `names`:
/// the directories, and the files that lie in none, each once.
pub fn top_level_dirs(names: &Vec<String>) -> (dirs: Vec<String>)
    ensures
        views(dirs@) == top_level(views(names@)),
{
    let ghost all = views(names@);
    let mut found: Vec<Vec<char>> = Vec::new();
    let mut i: usize = 0;
    assert(all.take(0) =~= Seq::<Seq<char>>::empty());
    assert(views(found@) =~= Seq::<Seq<char>>::empty());
    while i < names.len()
        invariant
            i <= names.len(),
            all == views(names@),
            views(found@) == top_level(all.take(i as int)),
        decreases names.len() - i,
    {
        let name = to_chars(names[i].as_str());
        assert(all.take(i + 1).drop_last() =~= all.take(i as int));
        assert(all.take(i + 1).last() == name@);
        let ghost before = views(found@);
        match first_component_of(&name) {
            Some(first) => {
                if !holds(&found, &first) {
                    found.push(first);
                    assert(views(found@) =~= before.push(first@));
                }
            },
            None => {},
        }
        i += 1;
    }
    assert(all.take(names.len() as int) =~= all);
    from_chars_all(&found)
}

} // verus!
