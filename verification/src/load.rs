//! The table of sprite types: one line per type with its id, name,
//! description and default settings length.
use std::collections::HashMap;
use vstd::prelude::*;
use vstd::string::*;
use crate::parse::{parse_radix, parse_radix_chars, split_chars, split_on, str_chars, lemma_split_on_nonempty};
use crate::sprites::SpriteMetadata;
use crate::text::string_from_chars;

verus! {

/// A line without the carriage return before its line feed.
pub open spec fn strip_cr(l: Seq<char>) -> Seq<char> {
    if l.len() > 0 && l.last() == '\r' {
        l.drop_last()
    } else {
        l
    }
}

/// The lines of a text as `str::lines` gives them.
pub open spec fn lines_of(cs: Seq<char>) -> Seq<Seq<char>> {
    let parts = split_on(cs, '\n');
    let body = parts.drop_last().map_values(|l: Seq<char>| strip_cr(l));
    if parts.last().len() > 0 {
        body.push(parts.last())
    } else {
        body
    }
}

/// The text with every leading "0x" removed.
pub open spec fn trim_0x(cs: Seq<char>) -> Seq<char>
    decreases cs.len(),
{
    if cs.len() >= 2 && cs[0] == '0' && cs[1] == 'x' {
        trim_0x(cs.skip(2))
    } else {
        cs
    }
}

pub open spec fn starts_0x(cs: Seq<char>) -> bool {
    cs.len() >= 2 && cs[0] == '0' && cs[1] == 'x'
}

/// What a sprite type's entry holds.
pub ghost struct MetaView {
    pub sprite_id: u16,
    pub name: Seq<char>,
    pub description: Seq<char>,
    pub default_settings_len: u16,
}

pub open spec fn meta_of(m: SpriteMetadata) -> MetaView {
    MetaView {
        sprite_id: m.sprite_id,
        name: m.name@,
        description: m.description@,
        default_settings_len: m.default_settings_len,
    }
}

/// The settings length field's base: hexadecimal after "0x", otherwise
/// decimal.
pub open spec fn len_base(f: Seq<char>) -> nat {
    if starts_0x(f) {
        16
    } else {
        10
    }
}

/// The entry a line holds: `None` when its id is not a hexadecimal
/// 16-bit number (the line is skipped, as the header line is). A settings
/// length that cannot be read is 0xFFFF.
pub open spec fn line_entry(line: Seq<char>) -> Option<MetaView> {
    let f = split_on(line, ',');
    match parse_radix(trim_0x(f[0]), 16, 0xffff) {
        None => None,
        Some(id) => Some(
            MetaView {
                sprite_id: id as u16,
                name: f[1],
                description: f[2],
                default_settings_len: match parse_radix(trim_0x(f[3]), len_base(f[3]), 0xffff) {
                    Some(l) => l as u16,
                    None => 0xffff,
                },
            },
        ),
    }
}

/// A line the reader takes: one whose id is readable has at least four
/// fields.
pub open spec fn line_ok(line: Seq<char>) -> bool {
    let f = split_on(line, ',');
    parse_radix(trim_0x(f[0]), 16, 0xffff) is Some ==> f.len() >= 4
}

/// The table the lines give; a later line for an id replaces an earlier
/// one.
pub open spec fn table_of(ls: Seq<Seq<char>>) -> Map<u16, MetaView>
    decreases ls.len(),
{
    if ls.len() == 0 {
        Map::empty()
    } else {
        let m = table_of(ls.drop_last());
        match line_entry(ls.last()) {
            Some(v) => m.insert(v.sprite_id, v),
            None => m,
        }
    }
}

/// A table text the reader takes: every line is taken.
pub open spec fn csv_ok(cs: Seq<char>) -> bool {
    forall|k: int| 0 <= k < lines_of(cs).len() ==> line_ok(#[trigger] lines_of(cs)[k])
}

fn text_lines(cs: &Vec<char>) -> (r: Vec<Vec<char>>)
    ensures
        r@.map_values(|l: Vec<char>| l@) == lines_of(cs@),
{
    let parts = split_chars(cs, '\n');
    let ghost pv = parts@.map_values(|p: Vec<char>| p@);
    proof {
        lemma_split_on_nonempty(cs@, '\n');
    }
    let n = parts.len();
    let mut out: Vec<Vec<char>> = Vec::new();
    let mut i: usize = 0;
    while i + 1 < n
        invariant
            n == parts@.len(),
            n >= 1,
            i + 1 <= n,
            pv == parts@.map_values(|p: Vec<char>| p@),
            out@.map_values(|l: Vec<char>| l@) == pv.take(i as int).map_values(|l: Seq<char>| strip_cr(l)),
        decreases n - i,
    {
        let p = &parts[i];
        let mut line: Vec<char> = Vec::new();
        let len = p.len();
        let keep = if len > 0 && p[len - 1] == '\r' {
            len - 1
        } else {
            len
        };
        let mut j: usize = 0;
        while j < keep
            invariant
                j <= keep <= p@.len(),
                line@ == p@.take(j as int),
            decreases keep - j,
        {
            line.push(p[j]);
            j += 1;
            assert(line@ =~= p@.take(j as int));
        }
        assert(p@ == pv[i as int]);
        assert(line@ =~= strip_cr(pv[i as int]));
        let ghost before = out@.map_values(|l: Vec<char>| l@);
        out.push(line);
        assert(pv.take(i + 1) =~= pv.take(i as int).push(pv[i as int]));
        assert(out@.map_values(|l: Vec<char>| l@) =~= before.push(line@));
        assert(pv.take(i + 1).map_values(|l: Seq<char>| strip_cr(l)) =~= pv.take(i as int).map_values(|l: Seq<char>| strip_cr(l)).push(strip_cr(pv[i as int])));
        i += 1;
    }
    assert(pv.take(i as int) =~= pv.drop_last());
    if parts[n - 1].len() > 0 {
        let mut last: Vec<char> = Vec::new();
        let p = &parts[n - 1];
        let mut j: usize = 0;
        while j < p.len()
            invariant
                j <= p@.len(),
                last@ == p@.take(j as int),
            decreases p@.len() - j,
        {
            last.push(p[j]);
            j += 1;
            assert(last@ =~= p@.take(j as int));
        }
        assert(last@ =~= pv.last());
        let ghost before = out@.map_values(|l: Vec<char>| l@);
        out.push(last);
        assert(out@.map_values(|l: Vec<char>| l@) =~= before.push(pv.last()));
    }
    out
}

/// The text with every leading "0x" removed, from position `start`.
fn trim_start(f: &Vec<char>) -> (r: Vec<char>)
    ensures
        r@ == trim_0x(f@),
{
    let mut s: usize = 0;
    assert(f@.skip(0) =~= f@);
    while s < f.len() && f.len() - s >= 2 && f[s] == '0' && f[s + 1] == 'x'
        invariant
            s <= f@.len(),
            trim_0x(f@.skip(s as int)) == trim_0x(f@),
        decreases f@.len() - s,
    {
        assert(f@.skip(s as int).skip(2) =~= f@.skip(s + 2));
        s += 2;
    }
    let mut out: Vec<char> = Vec::new();
    let mut j = s;
    while j < f.len()
        invariant
            s <= j <= f@.len(),
            out@ == f@.subrange(s as int, j as int),
        decreases f@.len() - j,
    {
        out.push(f[j]);
        j += 1;
        assert(out@ =~= f@.subrange(s as int, j as int));
    }
    assert(out@ =~= f@.skip(s as int));
    out
}

/// Reads the table of sprite types from its text: one line per type with
/// its hexadecimal id, name, description and settings length; lines
/// whose id cannot be read, such as the header line, are skipped.
pub fn load_sprite_csv(csv: &str) -> (r: HashMap<u16, SpriteMetadata>)
    requires
        csv_ok(csv@),
    ensures
        forall|id: u16| r@.contains_key(id) <==> table_of(lines_of(csv@)).contains_key(id),
        forall|id: u16| r@.contains_key(id) ==> meta_of(r@[id]) == table_of(lines_of(csv@))[id],
{
    broadcast use vstd::std_specs::hash::group_hash_axioms;
    let cs = str_chars(csv);
    let lines = text_lines(&cs);
    let ghost lv = lines@.map_values(|l: Vec<char>| l@);
    let mut m: HashMap<u16, SpriteMetadata> = HashMap::new();
    let mut k: usize = 0;
    assert(lv.take(0) =~= Seq::<Seq<char>>::empty());
    while k < lines.len()
        invariant
            k <= lines@.len(),
            lv == lines@.map_values(|l: Vec<char>| l@),
            lv == lines_of(csv@),
            csv_ok(csv@),
            forall|id: u16| m@.contains_key(id) <==> table_of(lv.take(k as int)).contains_key(id),
            forall|id: u16| m@.contains_key(id) ==> meta_of(m@[id]) == table_of(lv.take(k as int))[id],
        decreases lines@.len() - k,
    {
        let ghost ls = lv.take(k + 1);
        assert(ls.drop_last() =~= lv.take(k as int));
        assert(ls.last() == lv[k as int]);
        assert(line_ok(lv[k as int]));
        let fields = split_chars(&lines[k], ',');
        let ghost fv = fields@.map_values(|p: Vec<char>| p@);
        assert(fv == split_on(lv[k as int], ','));
        proof {
            lemma_split_on_nonempty(lv[k as int], ',');
        }
        let id_text = trim_start(&fields[0]);
        match parse_radix_chars(id_text.as_slice(), 16, 0xffff) {
            None => {},
            Some(id) => {
                let len_field = &fields[3];
                let hex = len_field.len() >= 2 && len_field[0] == '0' && len_field[1] == 'x';
                let base: u32 = if hex {
                    16
                } else {
                    10
                };
                let len_text = trim_start(len_field);
                let settings_len = match parse_radix_chars(len_text.as_slice(), base, 0xffff) {
                    Some(l) => l as u16,
                    None => 0xffff,
                };
                let meta = SpriteMetadata {
                    sprite_id: id as u16,
                    name: string_from_chars(&fields[1]),
                    description: string_from_chars(&fields[2]),
                    default_settings_len: settings_len,
                };
                assert(meta_of(meta) == line_entry(lv[k as int])->0);
                m.insert(id as u16, meta);
            },
        }
        k += 1;
    }
    assert(lv.take(k as int) =~= lv);
    m
}

} // verus!

verus! {

/// Decides whether `load_sprite_csv` can read a table text: every line
/// whose id can be read has at least four fields.
pub fn sprite_csv_ok(csv: &str) -> (r: bool)
    ensures
        r == csv_ok(csv@),
{
    let cs = str_chars(csv);
    let lines = text_lines(&cs);
    let ghost lv = lines@.map_values(|l: Vec<char>| l@);
    let mut k: usize = 0;
    while k < lines.len()
        invariant
            k <= lines@.len(),
            lv == lines@.map_values(|l: Vec<char>| l@),
            lv == lines_of(csv@),
            forall|j: int| 0 <= j < k ==> line_ok(#[trigger] lv[j]),
        decreases lines@.len() - k,
    {
        let fields = split_chars(&lines[k], ',');
        let ghost fv = fields@.map_values(|p: Vec<char>| p@);
        assert(lv[k as int] == lines@[k as int]@);
        assert(fv == split_on(lv[k as int], ','));
        proof {
            lemma_split_on_nonempty(lv[k as int], ',');
        }
        let id_text = trim_start(&fields[0]);
        if parse_radix_chars(id_text.as_slice(), 16, 0xffff).is_some() && fields.len() < 4 {
            assert(!line_ok(lv[k as int]));
            return false;
        }
        k += 1;
    }
    true
}

} // verus!
