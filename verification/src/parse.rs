//! Reading numbers and fields from text, as the editor's settings fields
//! and its sprite table are written.
use vstd::prelude::*;
use vstd::string::*;

verus! {

/// The characters of a string.
pub fn str_chars(s: &str) -> (r: Vec<char>)
    ensures
        r@ == s@,
{
    let n = s.unicode_len();
    let mut out: Vec<char> = Vec::new();
    let mut i: usize = 0;
    while i < n
        invariant
            n == s@.len(),
            i <= n,
            out@ == s@.take(i as int),
        decreases n - i,
    {
        out.push(s.get_char(i));
        i += 1;
        assert(out@ =~= s@.take(i as int));
    }
    assert(s@.take(i as int) =~= s@);
    out
}

/// The pieces of `cs` between occurrences of `sep` (as `str::split`
/// gives them: empty pieces included, and one piece for empty text).
pub open spec fn split_on(cs: Seq<char>, sep: char) -> Seq<Seq<char>>
    decreases cs.len(),
{
    if cs.len() == 0 {
        seq![Seq::empty()]
    } else {
        let rest = split_on(cs.drop_last(), sep);
        if cs.last() == sep {
            rest.push(Seq::empty())
        } else {
            rest.update(rest.len() - 1, rest.last().push(cs.last()))
        }
    }
}

pub proof fn lemma_split_on_nonempty(cs: Seq<char>, sep: char)
    ensures
        split_on(cs, sep).len() >= 1,
    decreases cs.len(),
{
    if cs.len() > 0 {
        lemma_split_on_nonempty(cs.drop_last(), sep);
    }
}

/// Splits `cs` at each `sep`.
pub fn split_chars(cs: &Vec<char>, sep: char) -> (r: Vec<Vec<char>>)
    ensures
        r@.map_values(|p: Vec<char>| p@) == split_on(cs@, sep),
{
    let mut out: Vec<Vec<char>> = Vec::new();
    let mut cur: Vec<char> = Vec::new();
    let mut i: usize = 0;
    while i < cs.len()
        invariant
            i <= cs@.len(),
            out@.map_values(|p: Vec<char>| p@).push(cur@) == split_on(cs@.take(i as int), sep),
        decreases cs@.len() - i,
    {
        let c = cs[i];
        let ghost before = out@.map_values(|p: Vec<char>| p@).push(cur@);
        proof {
            assert(cs@.take(i + 1).drop_last() =~= cs@.take(i as int));
            lemma_split_on_nonempty(cs@.take(i as int), sep);
        }
        if c == sep {
            let done = cur;
            out.push(done);
            cur = Vec::new();
            assert(out@.map_values(|p: Vec<char>| p@).push(cur@) =~= before.push(Seq::empty()));
        } else {
            cur.push(c);
            assert(out@.map_values(|p: Vec<char>| p@).push(cur@) =~= before.update(before.len() - 1, before.last().push(c)));
        }
        i += 1;
    }
    assert(cs@.take(i as int) =~= cs@);
    out.push(cur);
    out
}

/// The value of a character as a digit in `radix` (0-9, then letters of
/// either case).
pub open spec fn digit_value(c: char, radix: nat) -> Option<nat> {
    let v = c as u32;
    let d: int = if 48 <= v <= 57 {
        v - 48
    } else if 97 <= v <= 122 {
        v - 97 + 10
    } else if 65 <= v <= 90 {
        v - 65 + 10
    } else {
        99
    };
    if d < radix {
        Some(d as nat)
    } else {
        None
    }
}

/// The value of a sequence of digits; `None` when one is not a digit.
pub open spec fn digits_value(ds: Seq<char>, radix: nat) -> Option<nat>
    decreases ds.len(),
{
    if ds.len() == 0 {
        Some(0)
    } else {
        match (digits_value(ds.drop_last(), radix), digit_value(ds.last(), radix)) {
            (Some(v), Some(d)) => Some(v * radix + d),
            _ => None,
        }
    }
}

/// An unsigned number in `radix` as `from_str_radix` reads it: an
/// optional '+', then at least one digit, the value at most `max`.
pub open spec fn parse_radix(cs: Seq<char>, radix: nat, max: nat) -> Option<nat> {
    let ds = if cs.len() >= 1 && cs[0] == '+' {
        cs.skip(1)
    } else {
        cs
    };
    if ds.len() == 0 {
        None
    } else {
        match digits_value(ds, radix) {
            Some(v) => if v <= max {
                Some(v)
            } else {
                None
            },
            None => None,
        }
    }
}

proof fn lemma_digits_grow(ds: Seq<char>, radix: nat, k: int)
    requires
        radix >= 2,
        0 <= k <= ds.len(),
        digits_value(ds, radix) is Some,
    ensures
        digits_value(ds.take(k), radix) is Some,
        digits_value(ds.take(k), radix)->0 <= digits_value(ds, radix)->0,
    decreases ds.len() - k,
{
    if k == ds.len() {
        assert(ds.take(k) =~= ds);
    } else {
        lemma_digits_grow(ds, radix, k + 1);
        let t = ds.take(k + 1);
        assert(t.drop_last() =~= ds.take(k));
        let v = digits_value(ds.take(k), radix)->0;
        let d = digit_value(t.last(), radix)->0;
        assert(v * radix + d >= v) by (nonlinear_arith)
            requires
                radix >= 2,
                d >= 0,
                v >= 0,
        ;
    }
}

fn digit_of(c: char, radix: u32) -> (r: Option<u32>)
    requires
        2 <= radix <= 36,
    ensures
        match (r, digit_value(c, radix as nat)) {
            (Some(a), Some(b)) => a == b,
            (None, None) => true,
            _ => false,
        },
{
    let v = c as u32;
    let d: u32 = if 48 <= v && v <= 57 {
        v - 48
    } else if 97 <= v && v <= 122 {
        v - 97 + 10
    } else if 65 <= v && v <= 90 {
        v - 65 + 10
    } else {
        99
    };
    if d < radix {
        Some(d)
    } else {
        None
    }
}

/// Reads an unsigned number in `radix` no larger than `max`.
pub fn parse_radix_chars(cs: &[char], radix: u32, max: u32) -> (r: Option<u32>)
    requires
        2 <= radix <= 36,
    ensures
        match (r, parse_radix(cs@, radix as nat, max as nat)) {
            (Some(a), Some(b)) => a == b,
            (None, None) => true,
            _ => false,
        },
{
    let start: usize = if cs.len() >= 1 && cs[0] == '+' {
        1
    } else {
        0
    };
    let ghost ds = if cs@.len() >= 1 && cs@[0] == '+' {
        cs@.skip(1)
    } else {
        cs@
    };
    assert(ds =~= cs@.subrange(start as int, cs@.len() as int));
    if start >= cs.len() {
        return None;
    }
    let mut v: u64 = 0;
    let mut i = start;
    while i < cs.len()
        invariant
            2 <= radix <= 36,
            start <= i <= cs@.len(),
            ds == cs@.subrange(start as int, cs@.len() as int),
            ds == (if cs@.len() >= 1 && cs@[0] == '+' {
                cs@.skip(1)
            } else {
                cs@
            }),
            ds.len() > 0,
            digits_value(ds.take(i - start), radix as nat) == Some(v as nat),
            v <= max,
        decreases cs@.len() - i,
    {
        let ghost t = ds.take(i - start + 1);
        assert(t.drop_last() =~= ds.take(i - start));
        assert(t.last() == cs@[i as int]);
        match digit_of(cs[i], radix) {
            None => {
                proof {
                    assert(digits_value(t, radix as nat) is None);
                    if digits_value(ds, radix as nat) is Some {
                        lemma_digits_grow(ds, radix as nat, i - start + 1);
                    }
                }
                return None;
            },
            Some(d) => {
                assert(v * (radix as u64) <= 0xffff_ffff * 36) by (nonlinear_arith)
                    requires
                        v <= 0xffff_ffff,
                        radix <= 36,
                ;
                let nv = v * (radix as u64) + (d as u64);
                assert(digits_value(t, radix as nat) == Some(nv as nat));
                if nv > max as u64 {
                    proof {
                        if digits_value(ds, radix as nat) is Some {
                            lemma_digits_grow(ds, radix as nat, i - start + 1);
                        }
                    }
                    return None;
                }
                v = nv;
            },
        }
        i += 1;
    }
    assert(ds.take(i - start) =~= ds);
    Some(v as u32)
}

/// Settings typed as hexadecimal bytes separated by single spaces are
/// valid when every piece is a byte and there are `ideal_len` of them.
pub open spec fn settings_string_valid(s: Seq<char>, ideal_len: nat) -> bool {
    let pieces = split_on(s, ' ');
    &&& forall|i: int| 0 <= i < pieces.len() ==> parse_radix(#[trigger] pieces[i], 16, 255) is Some
    &&& pieces.len() == ideal_len
}

pub fn is_settings_string_valid(settings_string: &str, ideal_len: usize) -> (r: bool)
    ensures
        r == settings_string_valid(settings_string@, ideal_len as nat),
{
    let cs = str_chars(settings_string);
    let pieces = split_chars(&cs, ' ');
    let ghost pv = pieces@.map_values(|p: Vec<char>| p@);
    let mut i: usize = 0;
    while i < pieces.len()
        invariant
            i <= pieces@.len(),
            pv == pieces@.map_values(|p: Vec<char>| p@),
            pv == split_on(settings_string@, ' '),
            forall|k: int| 0 <= k < i ==> parse_radix(#[trigger] pv[k], 16, 255) is Some,
        decreases pieces@.len() - i,
    {
        if parse_radix_chars(pieces[i].as_slice(), 16, 255).is_none() {
            assert(pv[i as int] == pieces@[i as int]@);
            return false;
        }
        i += 1;
    }
    pieces.len() == ideal_len
}

} // verus!

verus! {

/// The name of a course's music track.
pub open spec fn music_name(music: u8) -> Seq<char> {
    if music == 0x0 {
        "Flower Garden (dup?)"@
    } else if music == 0x1 {
        "Story Music Box"@
    } else if music == 0x2 {
        "Yoshi's Island DS"@
    } else if music == 0x3 {
        "Flower Field"@
    } else if music == 0x4 {
        "Yoshi's Island DS (dup?)"@
    } else if music == 0x5 {
        "Yoshi's Island DS (dup?)"@
    } else if music == 0x6 {
        "Training Course"@
    } else if music == 0x7 {
        "Score"@
    } else if music == 0x8 {
        "Minigame"@
    } else if music == 0x9 {
        "Flower Garden"@
    } else if music == 0xA {
        "Underground"@
    } else if music == 0xB {
        "Sea Coast"@
    } else if music == 0xC {
        "Jungle"@
    } else if music == 0xD {
        "Castle"@
    } else if music == 0xE {
        "In The Clouds"@
    } else if music == 0xF {
        "Wildlands"@
    } else if music == 0x10 {
        "Bonus Challenge"@
    } else if music == 0x11 {
        "Kamek's Theme"@
    } else if music == 0x12 {
        "Mini-Boss"@
    } else if music == 0x13 {
        "Boss Room"@
    } else if music == 0x14 {
        "Big Boss"@
    } else if music == 0x15 {
        "Flower Garden (dup?)"@
    } else if music == 0x16 {
        "Bowser"@
    } else if music == 0x17 {
        "Castle again?"@
    } else if music == 0x18 {
        "Silence"@
    } else if music == 0x19 {
        "Silence (Echoes)"@
    } else {
        "Unknown"@
    }
}

pub fn get_course_music_name(music: u8) -> (r: String)
    ensures
        r@ == music_name(music),
{
    let name: &str = if music == 0x0 {
        "Flower Garden (dup?)"
    } else if music == 0x1 {
        "Story Music Box"
    } else if music == 0x2 {
        "Yoshi's Island DS"
    } else if music == 0x3 {
        "Flower Field"
    } else if music == 0x4 {
        "Yoshi's Island DS (dup?)"
    } else if music == 0x5 {
        "Yoshi's Island DS (dup?)"
    } else if music == 0x6 {
        "Training Course"
    } else if music == 0x7 {
        "Score"
    } else if music == 0x8 {
        "Minigame"
    } else if music == 0x9 {
        "Flower Garden"
    } else if music == 0xA {
        "Underground"
    } else if music == 0xB {
        "Sea Coast"
    } else if music == 0xC {
        "Jungle"
    } else if music == 0xD {
        "Castle"
    } else if music == 0xE {
        "In The Clouds"
    } else if music == 0xF {
        "Wildlands"
    } else if music == 0x10 {
        "Bonus Challenge"
    } else if music == 0x11 {
        "Kamek's Theme"
    } else if music == 0x12 {
        "Mini-Boss"
    } else if music == 0x13 {
        "Boss Room"
    } else if music == 0x14 {
        "Big Boss"
    } else if music == 0x15 {
        "Flower Garden (dup?)"
    } else if music == 0x16 {
        "Bowser"
    } else if music == 0x17 {
        "Castle again?"
    } else if music == 0x18 {
        "Silence"
    } else if music == 0x19 {
        "Silence (Echoes)"
    } else {
        "Unknown"
    };
    String::from_str(name)
}

} // verus!
