//! The compact-index line parser.

use vstd::prelude::*;
use crate::error::SyncError;
use crate::integrity::{Algorithm, Integrity, is_hex_text, is_lower_hex_of};
use crate::model::{Gem, GemV};
use crate::text::{find_last, last_at, lemma_last_at_unique, prefix_until, split_at_first, split_once, take_until};

verus! {

pub open spec fn checksum_tag() -> Seq<char> {
    seq!['c', 'h', 'e', 'c', 'k', 's', 'u', 'm', ':']
}

/// A metadata item of the form `checksum:<value>`.
pub open spec fn is_checksum_item(item: Seq<char>) -> bool {
    item.len() >= 9 && item.subrange(0, 9) == checksum_tag()
}

/// The value of a `checksum:` item: up to the next `:`.
pub open spec fn item_value(item: Seq<char>) -> Seq<char> {
    take_until(item.subrange(9, item.len() as int), ':')
}

/// The value of the last `checksum:` item of a comma-separated list, or the
/// empty text where there is none.
pub open spec fn checksum_of(meta: Seq<char>) -> Seq<char>
    decreases meta.len(),
{
    if exists|p: int| last_at(meta, ',', p) {
        let p = choose|p: int| last_at(meta, ',', p);
        let item = meta.subrange(p + 1, meta.len() as int);
        if is_checksum_item(item) {
            item_value(item)
        } else {
            checksum_of(meta.subrange(0, p))
        }
    } else if is_checksum_item(meta) {
        item_value(meta)
    } else {
        Seq::empty()
    }
}

pub open spec fn ruby() -> Seq<char> {
    seq!['r', 'u', 'b', 'y']
}

/// The version part of a version token: up to its first `-`.
pub open spec fn version_of(tok: Seq<char>) -> Seq<char> {
    take_until(tok, '-')
}

/// The platform part of a version token: after its first `-`, else `ruby`.
pub open spec fn platform_of(tok: Seq<char>) -> Seq<char> {
    match split_once(tok, '-') {
        Some((_, p)) => p,
        None => ruby(),
    }
}

/// `name-version`, with `-platform` appended off the default platform.
pub open spec fn full_name_of(name: Seq<char>, version: Seq<char>, platform: Seq<char>) -> Seq<char> {
    if platform == ruby() {
        name + seq!['-'] + version
    } else {
        name + seq!['-'] + version + seq!['-'] + platform
    }
}

/// The version token and the metadata list of `<version> <deps>|<metadata>`.
pub open spec fn line_parts(line: Seq<char>) -> Option<(Seq<char>, Seq<char>)> {
    match split_once(line, ' ') {
        Some((tok, rest)) => match split_once(rest, '|') {
            Some((_, meta)) => Some((tok, meta)),
            None => None,
        },
        None => None,
    }
}

/// The line has both separators and a checksum that decodes as hex.
pub open spec fn accepts_info_line(line: Seq<char>) -> bool {
    line_parts(line) matches Some((_, meta)) && is_hex_text(checksum_of(meta))
}

/// `g` is the record that the line describes for namespace `name`.
pub open spec fn is_parsed_gem(name: Seq<char>, line: Seq<char>, g: GemV) -> bool {
    line_parts(line) matches Some((tok, meta)) && {
        &&& g.name == name
        &&& g.version == version_of(tok)
        &&& g.platform == platform_of(tok)
        &&& g.full_name == full_name_of(name, version_of(tok), platform_of(tok))
        &&& g.package.algorithm == Algorithm::Sha256
        &&& is_lower_hex_of(g.package.hex, checksum_of(meta))
        &&& g.metadata is None
        &&& !g.stored
    }
}

/// Whether `item` starts with `checksum:`.
fn has_checksum_tag(item: &str) -> (r: bool)
    ensures
        r == is_checksum_item(item@),
{
    let tag = "checksum:";
    proof {
        reveal_strlit("checksum:");
    }
    assert(tag@ =~= checksum_tag());
    if item.unicode_len() < 9 {
        return false;
    }
    let mut i: usize = 0;
    while i < 9
        invariant
            i <= 9,
            item@.len() >= 9,
            tag@ == checksum_tag(),
            forall|j: int| 0 <= j < i ==> item@[j] == tag@[j],
        decreases 9 - i,
    {
        if item.get_char(i) != tag.get_char(i) {
            assert(item@.subrange(0, 9)[i as int] != checksum_tag()[i as int]);
            return false;
        }
        i = i + 1;
    }
    assert(item@.subrange(0, 9) =~= checksum_tag());
    true
}

/// The value of a `checksum:` item.
fn checksum_value(item: &str) -> (r: String)
    requires
        is_checksum_item(item@),
    ensures
        r@ == item_value(item@),
{
    let n = item.unicode_len();
    let v = item.substring_char(9, n);
    prefix_until(v, ':').to_owned()
}

/// The value of the last `checksum:` item of a comma-separated metadata list.
pub fn checksum_field(meta: &str) -> (r: String)
    ensures
        r@ == checksum_of(meta@),
{
    let mut cur: &str = meta;
    loop
        invariant
            checksum_of(cur@) == checksum_of(meta@),
        decreases cur@.len(),
    {
        let n = cur.unicode_len();
        match find_last(cur, ',') {
            Some(p) => {
                proof {
                    let q = choose|q: int| last_at(cur@, ',', q);
                    lemma_last_at_unique(cur@, ',', p as int, q);
                }
                let item = cur.substring_char(p + 1, n);
                if has_checksum_tag(item) {
                    return checksum_value(item);
                }
                cur = cur.substring_char(0, p);
            },
            None => {
                if has_checksum_tag(cur) {
                    return checksum_value(cur);
                }
                return String::new();
            },
        }
    }
}

/// Parses one line `<version>[-<platform>] <deps>|<metadata>` of the info
/// page of namespace `name` into an unstored gem. Fails with `ParseError`
/// where the space or the `|` is missing or the checksum is not hex.
pub fn parse_info_line(name: &str, line: &str) -> (r: Result<Gem, SyncError>)
    ensures
        r is Ok <==> accepts_info_line(line@),
        r matches Ok(g) ==> is_parsed_gem(name@, line@, g@),
        r matches Err(e) ==> e == SyncError::ParseError,
{
    let (tok, rest) = match split_at_first(line, ' ') {
        Some(p) => p,
        None => return Err(SyncError::ParseError),
    };
    let (_deps, meta) = match split_at_first(rest, '|') {
        Some(p) => p,
        None => return Err(SyncError::ParseError),
    };
    let ruby_lit = "ruby";
    let dash = "-";
    proof {
        reveal_strlit("ruby");
        reveal_strlit("-");
    }
    assert(ruby_lit@ =~= ruby());
    assert(dash@ =~= seq!['-']);
    let (version, platform): (&str, &str) = match split_at_first(tok, '-') {
        Some(p) => p,
        None => (tok, ruby_lit),
    };
    let version = version.to_owned();
    let platform = platform.to_owned();
    let is_ruby = platform == ruby_lit.to_owned();
    let mut full_name = name.to_owned();
    full_name.append(dash);
    full_name.append(version.as_str());
    if !is_ruby {
        full_name.append(dash);
        full_name.append(platform.as_str());
    }
    let checksum = checksum_field(meta);
    let package_integrity = match Integrity::from_hex(checksum.as_str(), Algorithm::Sha256) {
        Ok(i) => i,
        Err(_) => return Err(SyncError::ParseError),
    };
    Ok(
        Gem {
            full_name,
            name: name.to_owned(),
            version,
            platform,
            package_integrity,
            metadata_integrity: None,
            stored: false,
        },
    )
}

} // verus!
