//! The decisions of a synchronisation run, one step at a time: framing of
//! compact-index pages, the listing diff, recording fetched pages, and the
//! blob pass. The caller performs the fetches and hands the results in.

use vstd::prelude::*;
use crate::error::SyncError;
use crate::integrity::Integrity;
use crate::model::{
    Gem, GemV, Index, IndexV, Namespace, NamespaceV, find_gem, find_namespace, gem_at, gems_view, has_gem,
    lemma_gem_at, lemma_push_gem, lemma_update_gem, namespace_at, unique_gems,
};
use crate::parse::{accepts_info_line, is_parsed_gem, line_parts, full_name_of, version_of, platform_of, parse_info_line};
use crate::text::{find_first, first_at, last_at, lemma_first_at_unique, lemma_last_at_unique, take_until, prefix_until};

verus! {

// ---- page framing ----

/// The lines of `s`, as `str::lines` yields them: split at `\n`, a `\r`
/// before it dropped, no empty line after a final `\n`.
pub open spec fn lines_of(s: Seq<char>) -> Seq<Seq<char>>
    decreases s.len(),
{
    if s.len() == 0 {
        Seq::empty()
    } else if exists|i: int| first_at(s, '\n', i) {
        let i = choose|i: int| first_at(s, '\n', i);
        let l = s.subrange(0, i);
        let l = if l.len() > 0 && l.last() == '\r' {
            l.drop_last()
        } else {
            l
        };
        seq![l] + lines_of(s.subrange(i + 1, s.len() as int))
    } else {
        seq![s]
    }
}

pub open spec fn separator() -> Seq<char> {
    seq!['-', '-', '-']
}

/// The lines after the first `---` line, if there is one.
pub open spec fn body_after_separator(ls: Seq<Seq<char>>) -> Option<Seq<Seq<char>>> {
    if exists|i: int| 0 <= i < ls.len() && ls[i] == separator() && forall|j: int| 0 <= j < i ==> ls[j] != separator() {
        let i = choose|i: int| 0 <= i < ls.len() && ls[i] == separator() && forall|j: int| 0 <= j < i ==> ls[j] != separator();
        Some(ls.subrange(i + 1, ls.len() as int))
    } else {
        None
    }
}

/// The body of a compact-index page.
pub open spec fn page_body(text: Seq<char>) -> Option<Seq<Seq<char>>> {
    body_after_separator(lines_of(text))
}

pub open spec fn strings_view(v: Seq<String>) -> Seq<Seq<char>> {
    v.map_values(|s: String| s@)
}

/// The lines of `text`.
pub fn split_lines(text: &str) -> (r: Vec<String>)
    ensures
        strings_view(r@) == lines_of(text@),
{
    let mut out: Vec<String> = Vec::new();
    let mut cur: &str = text;
    loop
        invariant
            lines_of(text@) == strings_view(out@) + lines_of(cur@),
        decreases cur@.len(),
    {
        let n = cur.unicode_len();
        if n == 0 {
            assert(strings_view(out@) + lines_of(cur@) =~= strings_view(out@));
            return out;
        }
        match find_first(cur, '\n') {
            Some(i) => {
                proof {
                    let k = choose|k: int| first_at(cur@, '\n', k);
                    lemma_first_at_unique(cur@, '\n', i as int, k);
                }
                let line = if i > 0 && cur.get_char(i - 1) == '\r' {
                    cur.substring_char(0, i - 1)
                } else {
                    cur.substring_char(0, i)
                };
                assert(line@ == {
                    let l = cur@.subrange(0, i as int);
                    if l.len() > 0 && l.last() == '\r' {
                        l.drop_last()
                    } else {
                        l
                    }
                }) by {
                    let l = cur@.subrange(0, i as int);
                    if i > 0 {
                        assert(l.last() == cur@[i - 1]);
                        assert(l.drop_last() =~= cur@.subrange(0, i - 1));
                    }
                }
                let ghost before = strings_view(out@);
                out.push(line.to_owned());
                assert(strings_view(out@) =~= before.push(line@));
                cur = cur.substring_char(i + 1, n);
                assert(lines_of(text@) =~= strings_view(out@) + lines_of(cur@));
            },
            None => {
                let ghost before = strings_view(out@);
                out.push(cur.to_owned());
                assert(strings_view(out@) =~= before.push(cur@));
                assert(!exists|i: int| first_at(cur@, '\n', i));
                assert(lines_of(text@) =~= strings_view(out@));
                return out;
            },
        }
    }
}

/// The lines of a page after its `---` line; `ParseError` where there is
/// no such line.
pub fn page_lines(text: &str) -> (r: Result<Vec<String>, SyncError>)
    ensures
        r is Ok <==> page_body(text@) is Some,
        r matches Ok(v) ==> page_body(text@) == Some(strings_view(v@)),
        r matches Err(e) ==> e == SyncError::ParseError,
{
    let mut lines = split_lines(text);
    let ghost ls = lines_of(text@);
    let sep_lit = "---";
    proof {
        reveal_strlit("---");
    }
    assert(sep_lit@ =~= separator());
    let sep = sep_lit.to_owned();
    let mut i: usize = 0;
    while i < lines.len()
        invariant
            i <= lines@.len(),
            strings_view(lines@) == ls,
            ls == lines_of(text@),
            sep@ == separator(),
            forall|j: int| 0 <= j < i ==> ls[j] != separator(),
        decreases lines@.len() - i,
    {
        assert(ls[i as int] == lines@[i as int]@);
        if lines[i] == sep {
            proof {
                let k = choose|k: int| 0 <= k < ls.len() && ls[k] == separator() && forall|j: int| 0 <= j < k ==> ls[j] != separator();
                if k < i {
                    assert(ls[k] != separator());
                }
                if k > i {
                    assert(ls[i as int] != separator());
                }
            }
            let rest = lines.split_off(i + 1);
            assert(strings_view(rest@) =~= ls.subrange(i + 1, ls.len() as int));
            return Ok(rest);
        }
        i = i + 1;
    }
    Err(SyncError::ParseError)
}

// ---- the listing ----

/// The namespace name of a listing line: its first space-separated token.
pub open spec fn first_token(l: Seq<char>) -> Seq<char> {
    take_until(l, ' ')
}

/// The checksum of a listing line: its last space-separated token.
pub open spec fn last_token(l: Seq<char>) -> Seq<char> {
    if exists|p: int| last_at(l, ' ', p) {
        let p = choose|p: int| last_at(l, ' ', p);
        l.subrange(p + 1, l.len() as int)
    } else {
        l
    }
}

/// Name to checksum over listing lines; a later line for a name wins.
pub open spec fn listing_map(ls: Seq<Seq<char>>) -> Map<Seq<char>, Seq<char>>
    decreases ls.len(),
{
    if ls.len() == 0 {
        Map::empty()
    } else {
        listing_map(ls.drop_last()).insert(first_token(ls.last()), last_token(ls.last()))
    }
}

/// One namespace of a listing and its current checksum.
#[derive(Clone, Debug)]
pub struct ListingEntry {
    pub name: String,
    pub checksum: String,
}

pub open spec fn entries_map(v: Seq<ListingEntry>) -> Map<Seq<char>, Seq<char>> {
    Map::new(
        |k: Seq<char>| exists|i: int| 0 <= i < v.len() && (#[trigger] v[i]).name@ == k,
        |k: Seq<char>| v[choose|i: int| 0 <= i < v.len() && (#[trigger] v[i]).name@ == k].checksum@,
    )
}

pub open spec fn unique_entries(v: Seq<ListingEntry>) -> bool {
    forall|i: int, j: int|
        0 <= i < v.len() && 0 <= j < v.len() && i != j ==> (#[trigger] v[i]).name@ != (
        #[trigger] v[j]).name@
}

/// The last token of a listing line.
fn last_token_of<'a>(l: &'a str) -> (r: &'a str)
    ensures
        r@ == last_token(l@),
{
    match crate::text::find_last(l, ' ') {
        Some(p) => {
            proof {
                let q = choose|q: int| last_at(l@, ' ', q);
                lemma_last_at_unique(l@, ' ', p as int, q);
            }
            let n = l.unicode_len();
            l.substring_char(p + 1, n)
        },
        None => l,
    }
}

/// Position of the entry of `name` in `v`.
fn find_entry(v: &Vec<ListingEntry>, name: &String) -> (r: Option<usize>)
    ensures
        r matches Some(k) ==> k < v@.len() && v@[k as int].name@ == name@,
        r is None ==> forall|a: int| 0 <= a < v@.len() ==> (#[trigger] v@[a]).name@ != name@,
{
    let mut k: usize = 0;
    while k < v.len()
        invariant
            k <= v@.len(),
            forall|a: int| 0 <= a < k ==> (#[trigger] v@[a]).name@ != name@,
        decreases v@.len() - k,
    {
        if v[k].name == *name {
            return Some(k);
        }
        k = k + 1;
    }
    None
}

/// Parses the `/versions` listing: after the `---` line, each line gives a
/// namespace name (first token) and its checksum (last token). One entry per
/// name, in order of first appearance; a later line for a name wins.
pub fn parse_listing(text: &str) -> (r: Result<Vec<ListingEntry>, SyncError>)
    ensures
        r is Ok <==> page_body(text@) is Some,
        r matches Ok(v) ==> unique_entries(v@),
        r matches Ok(v) ==> (page_body(text@) matches Some(b) && entries_map(v@) == listing_map(b)),
        r matches Err(e) ==> e == SyncError::ParseError,
{
    let lines = match page_lines(text) {
        Ok(l) => l,
        Err(e) => return Err(e),
    };
    let ghost b = strings_view(lines@);
    let mut out: Vec<ListingEntry> = Vec::new();
    let mut j: usize = 0;
    while j < lines.len()
        invariant
            j <= lines@.len(),
            b == strings_view(lines@),
            unique_entries(out@),
            entries_map(out@) =~= listing_map(b.subrange(0, j as int)),
        decreases lines@.len() - j,
    {
        let line = lines[j].as_str();
        let name = prefix_until(line, ' ').to_owned();
        let checksum = last_token_of(line).to_owned();
        let ghost before = out@;
        assert(b.subrange(0, j + 1).drop_last() =~= b.subrange(0, j as int));
        assert(b.subrange(0, j + 1).last() == line@);
        let found = find_entry(&out, &name);
        let ghost nm = name@;
        let ghost ck = checksum@;
        if let Some(k) = found {
            let e = ListingEntry { name, checksum };
            out.set(k, e);
            proof {
                let t = out@;
                assert forall|a: int, c: int| 0 <= a < t.len() && 0 <= c < t.len() && a != c implies (#[trigger] t[a]).name@ != (#[trigger] t[c]).name@ by {
                    assert(t[a].name@ == before[a].name@);
                    assert(t[c].name@ == before[c].name@);
                }
                assert forall|key: Seq<char>| #[trigger] entries_map(t).contains_key(key) == entries_map(before).insert(nm, ck).contains_key(key) by {
                    if exists|a: int| 0 <= a < before.len() && (#[trigger] before[a]).name@ == key {
                        let a = choose|a: int| 0 <= a < before.len() && (#[trigger] before[a]).name@ == key;
                        assert(t[a].name@ == key);
                    }
                    if key == nm {
                        assert(t[k as int].name@ == key);
                    }
                }
                assert forall|key: Seq<char>| #[trigger] entries_map(t).contains_key(key) implies entries_map(t)[key] == entries_map(before).insert(nm, ck)[key] by {
                    let a = choose|a: int| 0 <= a < t.len() && (#[trigger] t[a]).name@ == key;
                    if key == nm {
                        assert(a == k);
                    } else {
                        let c = choose|c: int| 0 <= c < before.len() && (#[trigger] before[c]).name@ == key;
                        assert(t[c].name@ == key);
                        assert(a == c);
                    }
                }
            }
        } else {
            let e = ListingEntry { name, checksum };
            out.push(e);
            proof {
                let t = out@;
                assert forall|a: int, c: int| 0 <= a < t.len() && 0 <= c < t.len() && a != c implies (#[trigger] t[a]).name@ != (#[trigger] t[c]).name@ by {
                    if a < before.len() {
                        assert(t[a] == before[a]);
                    }
                    if c < before.len() {
                        assert(t[c] == before[c]);
                    }
                }
                assert forall|key: Seq<char>| #[trigger] entries_map(t).contains_key(key) == entries_map(before).insert(nm, ck).contains_key(key) by {
                    if exists|a: int| 0 <= a < before.len() && (#[trigger] before[a]).name@ == key {
                        let a = choose|a: int| 0 <= a < before.len() && (#[trigger] before[a]).name@ == key;
                        assert(t[a] == before[a]);
                    }
                    if key == nm {
                        assert(t[before.len() as int].name@ == key);
                    }
                    if exists|a: int| 0 <= a < t.len() && (#[trigger] t[a]).name@ == key {
                        let a = choose|a: int| 0 <= a < t.len() && (#[trigger] t[a]).name@ == key;
                        if a < before.len() {
                            assert(t[a] == before[a]);
                        }
                    }
                }
                assert forall|key: Seq<char>| #[trigger] entries_map(t).contains_key(key) implies entries_map(t)[key] == entries_map(before).insert(nm, ck)[key] by {
                    let a = choose|a: int| 0 <= a < t.len() && (#[trigger] t[a]).name@ == key;
                    if key == nm {
                        assert(a == before.len());
                    } else {
                        let c = choose|c: int| 0 <= c < before.len() && (#[trigger] before[c]).name@ == key;
                        assert(t[c] == before[c]);
                        assert(a == c);
                    }
                }
            }
        }
        j = j + 1;
    }
    assert(b.subrange(0, b.len() as int) =~= b);
    assert(entries_map(out@) == listing_map(b));
    Ok(out)
}

// ---- the diff ----

/// A locally known checksum still describes the remote page: equal to the
/// listed one, or equal to it once the double quotes around it (a legacy
/// weak-validator form) are removed. No other normalisation is applied.
pub open spec fn same_checksum(local: Seq<char>, remote: Seq<char>) -> bool {
    local == remote || (local.len() >= 2 && local[0] == '"' && local.last() == '"'
        && local.subrange(1, local.len() - 1) == remote)
}

/// Whether a locally known checksum still describes the listed one.
pub fn checksum_unchanged(local: &str, remote: &str) -> (r: bool)
    ensures
        r == same_checksum(local@, remote@),
{
    let l = local.to_owned();
    let rm = remote.to_owned();
    if l == rm {
        return true;
    }
    let n = local.unicode_len();
    if n >= 2 && local.get_char(0) == '"' && local.get_char(n - 1) == '"' {
        let inner = local.substring_char(1, n - 1).to_owned();
        inner == rm
    } else {
        false
    }
}

/// A namespace needs its page fetched unless the index knows it with a
/// checksum that still describes the listed one.
pub open spec fn needs_fetch(gems: Seq<NamespaceV>, name: Seq<char>, checksum: Seq<char>) -> bool {
    !(namespace_at(gems, name) matches Some(n) && same_checksum(n.info_checksum, checksum))
}

/// A listing that repeats the checksum recorded for a namespace, as it is
/// or in the legacy quoted form, asks for no fetch of its page.
pub proof fn lemma_recorded_checksum_skips(gems: Seq<NamespaceV>, name: Seq<char>, listed: Seq<char>)
    requires
        namespace_at(gems, name) matches Some(n) && (n.info_checksum == listed || n.info_checksum
            == seq!['"'] + listed + seq!['"']),
    ensures
        !needs_fetch(gems, name, listed),
{
    let c = namespace_at(gems, name)->0.info_checksum;
    if c != listed {
        assert(c.subrange(1, c.len() - 1) =~= listed);
        assert(c[0] == '"');
        assert(c.last() == '"');
    }
}

/// Whether the page of namespace `name`, listed with `checksum`, must be
/// fetched for `index`.
pub fn should_fetch(index: &Index, name: &String, checksum: &String) -> (r: bool)
    requires
        index.wf(),
    ensures
        r == needs_fetch(index@.gems, name@, checksum@),
{
    match find_namespace(&index.gems, name) {
        Some(j) => {
            proof {
                assert(index@.gems[j as int] == index.gems@[j as int]@);
                crate::model::lemma_namespace_at(index@.gems, j as int);
            }
            !checksum_unchanged(index.gems[j].info_checksum.as_str(), checksum.as_str())
        },
        None => true,
    }
}

// ---- the page checksum ----

/// `s` without any leading `W/` markers.
pub open spec fn drop_weak(s: Seq<char>) -> Seq<char>
    decreases s.len(),
{
    if s.len() >= 2 && s[0] == 'W' && s[1] == '/' {
        drop_weak(s.subrange(2, s.len() as int))
    } else {
        s
    }
}

pub open spec fn drop_leading_quotes(s: Seq<char>) -> Seq<char>
    decreases s.len(),
{
    if s.len() > 0 && s[0] == '"' {
        drop_leading_quotes(s.subrange(1, s.len() as int))
    } else {
        s
    }
}

pub open spec fn drop_trailing_quotes(s: Seq<char>) -> Seq<char>
    decreases s.len(),
{
    if s.len() > 0 && s.last() == '"' {
        drop_trailing_quotes(s.drop_last())
    } else {
        s
    }
}

/// The checksum an `ETag` value carries: weak markers and quotes removed.
pub open spec fn etag_checksum(etag: Seq<char>) -> Seq<char> {
    drop_trailing_quotes(drop_leading_quotes(drop_weak(etag)))
}

fn starts_weak(s: &str) -> (r: bool)
    ensures
        r == (s@.len() >= 2 && s@[0] == 'W' && s@[1] == '/'),
{
    s.unicode_len() >= 2 && s.get_char(0) == 'W' && s.get_char(1) == '/'
}

fn starts_with_quote(s: &str) -> (r: bool)
    ensures
        r == (s@.len() > 0 && s@[0] == '"'),
{
    s.unicode_len() > 0 && s.get_char(0) == '"'
}

fn ends_with_quote(s: &str) -> (r: bool)
    ensures
        r == (s@.len() > 0 && s@.last() == '"'),
{
    let n = s.unicode_len();
    n > 0 && s.get_char(n - 1) == '"'
}

/// The checksum an `ETag` header value carries.
pub fn normalize_etag(etag: &str) -> (r: String)
    ensures
        r@ == etag_checksum(etag@),
{
    let mut cur: &str = etag;
    while starts_weak(cur)
        invariant
            drop_weak(cur@) == drop_weak(etag@),
        decreases cur@.len(),
    {
        let n = cur.unicode_len();
        cur = cur.substring_char(2, n);
    }
    while starts_with_quote(cur)
        invariant
            drop_leading_quotes(cur@) == drop_leading_quotes(drop_weak(etag@)),
        decreases cur@.len(),
    {
        let n = cur.unicode_len();
        cur = cur.substring_char(1, n);
    }
    while ends_with_quote(cur)
        invariant
            drop_trailing_quotes(cur@) == etag_checksum(etag@),
        decreases cur@.len(),
    {
        let n = cur.unicode_len();
        assert(cur@.subrange(0, n - 1) =~= cur@.drop_last());
        cur = cur.substring_char(0, n - 1);
    }
    cur.to_owned()
}

// ---- the info page ----

/// The key of the gem that an info line describes.
pub open spec fn line_key(name: Seq<char>, line: Seq<char>) -> Seq<char> {
    match line_parts(line) {
        Some((tok, _)) => full_name_of(name, version_of(tok), platform_of(tok)),
        None => Seq::empty(),
    }
}

/// `g` is what line `j` of `body` says, and no later line names the same key.
pub open spec fn from_last_line(name: Seq<char>, body: Seq<Seq<char>>, g: GemV, j: int, upto: int) -> bool {
    &&& 0 <= j < upto
    &&& is_parsed_gem(name, body[j], g)
    &&& forall|l: int| j < l < upto ==> line_key(name, #[trigger] body[l]) != g.full_name
}

/// `vs` holds, for each key that lines `0..upto` of `body` name, the gem of
/// the last such line, and nothing else.
pub open spec fn page_versions(name: Seq<char>, body: Seq<Seq<char>>, vs: Seq<GemV>, upto: int) -> bool {
    &&& unique_gems(vs)
    &&& forall|l: int| 0 <= l < upto ==> has_gem(vs, line_key(name, #[trigger] body[l]))
    &&& forall|i: int| 0 <= i < vs.len() ==> #[trigger] has_last_line(name, body, vs[i], upto)
}

/// Some line of `body` before `upto` is the last to give `g`.
pub open spec fn has_last_line(name: Seq<char>, body: Seq<Seq<char>>, g: GemV, upto: int) -> bool {
    exists|j: int| from_last_line(name, body, g, j, upto)
}

/// Builds the namespace `name` from the text of its info page and the
/// checksum its `ETag` carries. Fails with `ParseError` where the page has
/// no `---` line or any line after it does not parse.
pub fn parse_info_page(name: &str, text: &str, etag: &str) -> (r: Result<Namespace, SyncError>)
    ensures
        r is Ok <==> (page_body(text@) matches Some(b) && forall|l: int| 0 <= l < b.len() ==> accepts_info_line(#[trigger] b[l])),
        r matches Err(e) ==> e == SyncError::ParseError,
        r matches Ok(ns) ==> {
            &&& ns.wf()
            &&& ns@.name == name@
            &&& ns@.info_checksum == etag_checksum(etag@)
            &&& page_body(text@) matches Some(b) && page_versions(name@, b, ns@.versions, b.len() as int)
        },
{
    let lines = match page_lines(text) {
        Ok(l) => l,
        Err(e) => return Err(e),
    };
    let ghost b = strings_view(lines@);
    let ghost nm = name@;
    let mut versions: Vec<Gem> = Vec::new();
    let mut j: usize = 0;
    while j < lines.len()
        invariant
            j <= lines@.len(),
            b == strings_view(lines@),
            page_body(text@) == Some(b),
            nm == name@,
            forall|l: int| 0 <= l < j ==> accepts_info_line(#[trigger] b[l]),
            page_versions(nm, b, gems_view(versions@), j as int),
        decreases lines@.len() - j,
    {
        assert(b[j as int] == lines@[j as int]@);
        let g = match parse_info_line(name, lines[j].as_str()) {
            Ok(g) => g,
            Err(e) => {
                assert(!accepts_info_line(b[j as int]));
                assert(!(forall|l: int| 0 <= l < b.len() ==> accepts_info_line(#[trigger] b[l])));
                assert(page_body(text@) == Some(b));
                assert(page_body(text@)->0 == b);
                return Err(e);
            },
        };
        let ghost before = gems_view(versions@);
        let ghost gv = g@;
        assert(line_key(nm, b[j as int]) == gv.full_name);
        match find_gem(&versions, &g.full_name) {
            Some(p) => {
                proof {
                    assert(before[p as int] == versions@[p as int]@);
                }
                versions.set(p, g);
                proof {
                    assert(gems_view(versions@) =~= before.update(p as int, gv));
                    lemma_update_gem(before, p as int, gv);
                }
            },
            None => {
                versions.push(g);
                proof {
                    assert(gems_view(versions@) =~= before.push(gv));
                    lemma_push_gem(before, gv);
                }
            },
        }
        proof {
            let after = gems_view(versions@);
            let up = j + 1;
            assert(is_parsed_gem(nm, b[j as int], gv));
            assert forall|l: int| 0 <= l < up implies has_gem(after, line_key(nm, #[trigger] b[l])) by {
                let k = line_key(nm, b[l]);
                if l < j {
                    assert(has_gem(before, k));
                    assert(gem_at(before, k) is Some);
                    assert(gem_at(after, k) is Some);
                } else {
                    assert(gem_at(after, k) is Some);
                }
            }
            assert forall|i: int| 0 <= i < after.len() implies #[trigger] has_last_line(nm, b, after[i], up) by {
                let k = after[i].full_name;
                lemma_gem_at(after, i);
                if k == gv.full_name {
                    assert(after[i] == gv);
                    assert(from_last_line(nm, b, after[i], j as int, up));
                } else {
                    assert(gem_at(before, k) == Some(after[i]));
                    let a = choose|a: int| 0 <= a < before.len() && (#[trigger] before[a]).full_name == k;
                    lemma_gem_at(before, a);
                    assert(before[a] == after[i]);
                    assert(has_last_line(nm, b, before[a], j as int));
                    let jj = choose|jj: int| from_last_line(nm, b, before[a], jj, j as int);
                    assert(from_last_line(nm, b, after[i], jj, up));
                }
            }
            assert(unique_gems(after));
            assert(forall|l: int| 0 <= l < up ==> has_gem(after, line_key(nm, #[trigger] b[l])));
            assert(page_versions(nm, b, after, up));
        }
        j = j + 1;
    }
    let info_checksum = normalize_etag(etag);
    Ok(Namespace { name: name.to_owned(), info_checksum, versions })
}

// ---- the blob pass ----

/// The members of a tar archive, name and contents, as the tar crate reads
/// them, up to the first member it cannot read; `None` where it cannot
/// start reading the archive.
pub uninterp spec fn tar_entries_of(archive: Seq<u8>) -> Option<Seq<(Seq<char>, Seq<u8>)>>;

/// Relies on tar's `Archive::entries`, `Entry::path` and reading an entry:
/// the members of the archive in order, each with its path and contents,
/// until the first member that fails to read.
#[verifier::external_body]
fn tar_entries(archive: &[u8]) -> (r: Option<Vec<(String, Vec<u8>)>>)
    ensures
        match r {
            Some(v) => tar_entries_of(archive@) == Some(v@.map_values(|e: (String, Vec<u8>)| (e.0@, e.1@))),
            None => tar_entries_of(archive@) is None,
        },
{
    let mut out = Vec::new();
    for entry in tar::Archive::new(archive).entries().ok()? {
        let mut entry = match entry { Ok(e) => e, Err(_) => break };
        let path = match entry.path() { Ok(p) => p.to_string_lossy().into_owned(), Err(_) => break };
        let mut data = Vec::new();
        match std::io::Read::read_to_end(&mut entry, &mut data) {
            Ok(_) => out.push((path, data)),
            Err(_) => break,
        }
    }
    Some(out)
}

pub open spec fn metadata_name() -> Seq<char> {
    seq!['m', 'e', 't', 'a', 'd', 'a', 't', 'a', '.', 'g', 'z']
}

/// The contents of the first `metadata.gz` member.
pub open spec fn metadata_member(es: Seq<(Seq<char>, Seq<u8>)>) -> Option<Seq<u8>> {
    if exists|i: int| 0 <= i < es.len() && (#[trigger] es[i]).0 == metadata_name() {
        Some(es[choose|i: int| 0 <= i < es.len() && (#[trigger] es[i]).0 == metadata_name() && forall|j: int| 0 <= j < i ==> es[j].0 != metadata_name()].1)
    } else {
        None
    }
}

/// The metadata that a `.gem` archive carries, or `MetadataMissing`.
pub open spec fn archive_metadata_of(archive: Seq<u8>) -> Option<Seq<u8>> {
    match tar_entries_of(archive) {
        Some(es) => metadata_member(es),
        None => None,
    }
}

/// The contents of the first `metadata.gz` member of a `.gem` archive that
/// comes before any unreadable member; fails with `MetadataMissing` where
/// there is none or the archive cannot be read.
pub fn archive_metadata(archive: &[u8]) -> (r: Result<Vec<u8>, SyncError>)
    ensures
        match (r, archive_metadata_of(archive@)) {
            (Ok(v), Some(m)) => v@ == m,
            (Err(e), None) => e == SyncError::MetadataMissing,
            _ => false,
        },
{
    let entries = match tar_entries(archive) {
        Some(v) => v,
        None => return Err(SyncError::MetadataMissing),
    };
    let ghost es = entries@.map_values(|e: (String, Vec<u8>)| (e.0@, e.1@));
    let lit = "metadata.gz";
    proof {
        reveal_strlit("metadata.gz");
    }
    assert(lit@ =~= metadata_name());
    let wanted = lit.to_owned();
    let mut i: usize = 0;
    while i < entries.len()
        invariant
            i <= entries@.len(),
            es == entries@.map_values(|e: (String, Vec<u8>)| (e.0@, e.1@)),
            tar_entries_of(archive@) == Some(es),
            wanted@ == metadata_name(),
            forall|j: int| 0 <= j < i ==> (#[trigger] es[j]).0 != metadata_name(),
        decreases entries@.len() - i,
    {
        assert(es[i as int] == (entries@[i as int].0@, entries@[i as int].1@));
        if entries[i].0 == wanted {
            proof {
                assert(0 <= i < es.len() && (#[trigger] es[i as int]).0 == metadata_name() && forall|j: int| 0 <= j < i ==> es[j].0 != metadata_name());
                assert(exists|k: int| 0 <= k < es.len() && (#[trigger] es[k]).0 == metadata_name() && forall|j: int| 0 <= j < k ==> es[j].0 != metadata_name());
                let k = choose|k: int| 0 <= k < es.len() && (#[trigger] es[k]).0 == metadata_name() && forall|j: int| 0 <= j < k ==> es[j].0 != metadata_name();
                if k < i {
                    assert(es[k].0 != metadata_name());
                }
                if k > i {
                    assert(es[i as int].0 != metadata_name());
                }
            }
            let data = &entries[i].1;
            let mut out: Vec<u8> = Vec::new();
            let mut p: usize = 0;
            while p < data.len()
                invariant
                    p <= data@.len(),
                    out@ == data@.subrange(0, p as int),
                decreases data@.len() - p,
            {
                out.push(data[p]);
                p = p + 1;
            }
            assert(out@ =~= data@);
            assert(metadata_member(es) == Some(data@));
            return Ok(out);
        }
        i = i + 1;
    }
    Err(SyncError::MetadataMissing)
}

/// The bytes served for a gem must hash to the identifier its metadata
/// claimed: `IntegrityMismatch` otherwise.
pub fn check_download(expected: &Integrity, stored: &Integrity) -> (r: Result<(), SyncError>)
    ensures
        r is Ok <==> expected@ == stored@,
        r matches Err(e) ==> e == SyncError::IntegrityMismatch,
{
    if expected.same_as(stored) {
        Ok(())
    } else {
        Err(SyncError::IntegrityMismatch)
    }
}

/// Some gem of the index is not stored yet.
pub open spec fn has_pending(i: IndexV) -> bool {
    exists|n: int, g: int|
        0 <= n < i.gems.len() && 0 <= g < i.gems[n].versions.len() && !(#[trigger] i.gems[n].versions[g]).stored
}

/// The position (namespace, version) of a gem of `index` that is not stored
/// yet, if there is one.
pub fn first_pending(index: &Index) -> (r: Option<(usize, usize)>)
    ensures
        r is None <==> !has_pending(index@),
        r matches Some((n, g)) ==> n < index@.gems.len() && g < index@.gems[n as int].versions.len()
            && !index@.gems[n as int].versions[g as int].stored,
{
    let mut n: usize = 0;
    while n < index.gems.len()
        invariant
            n <= index.gems@.len(),
            forall|a: int, b: int|
                0 <= a < n && 0 <= b < index@.gems[a].versions.len() ==> (#[trigger] index@.gems[a].versions[b]).stored,
        decreases index.gems@.len() - n,
    {
        let ns = &index.gems[n];
        assert(index@.gems[n as int] == ns@);
        let mut g: usize = 0;
        while g < ns.versions.len()
            invariant
                g <= ns.versions@.len(),
                n < index@.gems.len(),
                index@.gems[n as int] == ns@,
                forall|a: int, b: int|
                    0 <= a < n && 0 <= b < index@.gems[a].versions.len() ==> (#[trigger] index@.gems[a].versions[b]).stored,
                forall|b: int| 0 <= b < g ==> (#[trigger] ns@.versions[b]).stored,
            decreases ns.versions@.len() - g,
        {
            assert(ns@.versions[g as int] == ns.versions@[g as int]@);
            if !ns.versions[g].stored {
                assert(!index@.gems[n as int].versions[g as int].stored);
                return Some((n, g));
            }
            g = g + 1;
        }
        assert forall|a: int, b: int|
            0 <= a < n + 1 && 0 <= b < index@.gems[a].versions.len() implies (#[trigger] index@.gems[a].versions[b]).stored by {
            if a == n {
                assert(ns@.versions[b].stored);
            }
        }
        n = n + 1;
    }
    None
}

/// The gem `g` with its metadata blob recorded and marked stored.
pub open spec fn stored_gem(g: GemV, metadata: crate::integrity::IntegrityV) -> GemV {
    GemV { metadata: Some(metadata), stored: true, ..g }
}

/// The index `i` with the gem at (`n`, `g`) recorded as stored with
/// metadata blob `metadata`.
pub open spec fn marked(i: IndexV, n: int, g: int, metadata: crate::integrity::IntegrityV) -> IndexV {
    IndexV {
        gems: i.gems.update(
            n,
            NamespaceV {
                versions: i.gems[n].versions.update(g, stored_gem(i.gems[n].versions[g], metadata)),
                ..i.gems[n]
            },
        ),
        ..i
    }
}

impl Index {
    /// Records the metadata blob of the gem at (`n`, `g`) and marks it
    /// stored; nothing else changes.
    pub fn mark_stored(&mut self, n: usize, g: usize, metadata: Integrity)
        requires
            old(self).wf(),
            n < old(self)@.gems.len(),
            g < old(self)@.gems[n as int].versions.len(),
        ensures
            final(self).wf(),
            final(self)@ == marked(old(self)@, n as int, g as int, metadata@),
    {
        let ghost before = self@.gems;
        let mut ns = self.gems.remove(n);
        assert(ns@ == before[n as int]);
        let ghost vs = ns@.versions;
        let mut gem = ns.versions.remove(g);
        assert(gem@ == vs[g as int]);
        gem.metadata_integrity = Some(metadata);
        gem.stored = true;
        let ghost gv = gem@;
        ns.versions.insert(g, gem);
        assert(ns@.versions =~= vs.update(g as int, gv));
        let ghost nv = ns@;
        self.gems.insert(n, ns);
        assert(self@.gems =~= before.update(n as int, nv));
        proof {
            let t = self@.gems;
            assert forall|a: int, b: int| 0 <= a < t.len() && 0 <= b < t.len() && a != b implies (#[trigger] t[a]).name != (#[trigger] t[b]).name by {
                assert(t[a].name == before[a].name);
                assert(t[b].name == before[b].name);
            }
            assert forall|a: int| 0 <= a < t.len() implies unique_gems(#[trigger] t[a].versions) by {
                if a == n {
                    let u = t[a].versions;
                    assert(unique_gems(vs));
                    assert forall|x: int, y: int| 0 <= x < u.len() && 0 <= y < u.len() && x != y implies (#[trigger] u[x]).full_name != (#[trigger] u[y]).full_name by {
                        assert(u[x].full_name == vs[x].full_name);
                        assert(u[y].full_name == vs[y].full_name);
                    }
                } else {
                    assert(t[a] == before[a]);
                }
            }
        }
    }
}

} // verus!
