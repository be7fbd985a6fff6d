use vstd::prelude::*;

use crate::text::{seq_starts_with, starts_with};

verus! {

/// What a request target points at.
#[derive(Debug, Clone, Copy, PartialEq, Eq, Structural)]
pub enum PathKind {
    Relative,
    AbsoluteWin,
    AbsolutePosix,
    Internal,
    Normal,
}

/// `p` occurs in `h` at position `pos`.
pub open spec fn occurs_at(h: Seq<char>, p: Seq<char>, pos: int) -> bool {
    0 <= pos && pos + p.len() <= h.len() && h.subrange(pos, pos + p.len()) == p
}

/// `(start, end, value)` is the leftmost-longest occurrence of one of `patterns` in `h`:
/// no pattern occurs before `start`, and no pattern occurring at `start` is longer.
pub open spec fn is_leftmost_longest(
    patterns: Seq<Seq<char>>,
    h: Seq<char>,
    start: int,
    end: int,
    value: int,
) -> bool {
    &&& 0 <= value < patterns.len()
    &&& occurs_at(h, patterns[value], start)
    &&& end == start + patterns[value].len()
    &&& forall|pos: int, i: int|
        0 <= pos < start && 0 <= i < patterns.len() ==> !occurs_at(h, patterns[i], pos)
    &&& forall|i: int|
        0 <= i < patterns.len() && occurs_at(h, patterns[i], start) ==> patterns[i].len()
            <= end - start
}

/// No pattern occurs anywhere in `h`.
pub open spec fn occurs_nowhere(patterns: Seq<Seq<char>>, h: Seq<char>) -> bool {
    forall|pos: int, i: int| 0 <= i < patterns.len() ==> !occurs_at(h, patterns[i], pos)
}

fn occurs_at_exec(h: &[char], p: &[char], pos: usize) -> (r: bool)
    requires
        pos <= h@.len(),
    ensures
        r == occurs_at(h@, p@, pos as int),
{
    let rest = crate::text::slice_chars(h, pos, h.len());
    let r = starts_with(&rest, p);
    proof {
        if r {
            assert(h@.subrange(pos as int, pos + p@.len()) =~= rest@.subrange(0, p@.len() as int));
        } else if pos + p@.len() <= h@.len() {
            assert(h@.subrange(pos as int, pos + p@.len()) =~= rest@.subrange(0, p@.len() as int));
        }
    }
    r
}

/// The leftmost-longest occurrence of any of `patterns` in `haystack`, as
/// `(start, end, index of the pattern)`; `None` when no pattern occurs.
pub fn leftmost_longest_find(patterns: &Vec<Vec<char>>, haystack: &[char]) -> (r: Option<
    (usize, usize, usize),
>)
    ensures
        r matches Some((s, e, v)) ==> is_leftmost_longest(
            patterns@.map_values(|p: Vec<char>| p@),
            haystack@,
            s as int,
            e as int,
            v as int,
        ),
        r is None ==> occurs_nowhere(patterns@.map_values(|p: Vec<char>| p@), haystack@),
{
    let ghost pats = patterns@.map_values(|p: Vec<char>| p@);
    let mut pos: usize = 0;
    while pos <= haystack.len()
        invariant_except_break
            pos <= haystack@.len(),
        invariant
            pats == patterns@.map_values(|p: Vec<char>| p@),
            forall|q: int, i: int|
                0 <= q < pos && 0 <= i < pats.len() ==> !occurs_at(haystack@, pats[i], q),
        ensures
            forall|q: int, i: int|
                0 <= q <= haystack@.len() && 0 <= i < pats.len() ==> !occurs_at(haystack@, pats[i], q),
        decreases haystack@.len() + 1 - pos,
    {
        let mut best: Option<usize> = None;
        let mut i: usize = 0;
        while i < patterns.len()
            invariant
                pos <= haystack@.len(),
                i <= patterns@.len(),
                pats == patterns@.map_values(|p: Vec<char>| p@),
                best matches Some(b) ==> b < i && occurs_at(haystack@, pats[b as int], pos as int)
                    && forall|j: int|
                    0 <= j < i && occurs_at(haystack@, pats[j], pos as int) ==> pats[j].len()
                        <= pats[b as int].len(),
                best is None ==> forall|j: int|
                    0 <= j < i ==> !occurs_at(haystack@, pats[j], pos as int),
            decreases patterns@.len() - i,
        {
            if occurs_at_exec(haystack, &patterns[i], pos) {
                match best {
                    Some(b) => {
                        if patterns[i].len() > patterns[b].len() {
                            best = Some(i);
                        }
                    },
                    None => {
                        best = Some(i);
                    },
                }
            }
            i = i + 1;
        }
        match best {
            Some(b) => {
                let len = patterns[b].len();
                assert(pos + len <= haystack@.len());
                return Some((pos, pos + len, b));
            },
            None => {},
        }
        if pos == haystack.len() {
            break;
        }
        pos = pos + 1;
    }
    proof {
        assert forall|q: int, i: int| 0 <= i < pats.len() implies !occurs_at(
            haystack@,
            pats[i],
            q,
        ) by {
            if 0 <= q && q <= haystack@.len() {
            }
        }
    }
    None
}


/// The `k`-th drive letter, `a..z` then `A..Z`.
pub open spec fn drive_letter(k: int) -> char {
    if k < 26 {
        (97 + k) as char
    } else {
        (65 + k - 26) as char
    }
}

/// Two-character Windows drive prefixes such as `C:`.
pub open spec fn win_drives() -> Seq<Seq<char>> {
    Seq::new(52, |k: int| seq![drive_letter(k), ':'])
}

/// Windows absolute prefixes such as `C:\` and `C:/`.
pub open spec fn win_prefixes() -> Seq<Seq<char>> {
    Seq::new(
        104,
        |i: int|
            if i < 52 {
                seq![drive_letter(i), ':', '\\']
            } else {
                seq![drive_letter(i - 52), ':', '/']
            },
    )
}

/// The kind of a request target.
pub open spec fn spec_target_kind(t: Seq<char>) -> PathKind {
    if t.len() == 0 {
        PathKind::Relative
    } else if t[0] == '#' {
        PathKind::Internal
    } else if t[0] == '/' {
        PathKind::AbsolutePosix
    } else if t == seq!['.'] || seq_starts_with(t, seq!['.', '/']) || seq_starts_with(
        t,
        seq!['.', '.', '/'],
    ) || t == seq!['.', '.'] {
        PathKind::Relative
    } else if t.len() == 2 && win_drives().contains(t) {
        PathKind::AbsoluteWin
    } else if exists|i: int| 0 <= i < win_prefixes().len() && seq_starts_with(t, #[trigger] win_prefixes()[i]) {
        PathKind::AbsoluteWin
    } else {
        PathKind::Normal
    }
}

fn drive_letter_exec(k: usize) -> (c: char)
    requires
        k < 52,
    ensures
        c == drive_letter(k as int),
{
    if k < 26 {
        let b: u8 = 97u8 + (k as u8);
        b as char
    } else {
        let b: u8 = 65u8 + ((k - 26) as u8);
        b as char
    }
}

fn win_prefix_list() -> (r: Vec<Vec<char>>)
    ensures
        r@.map_values(|p: Vec<char>| p@) == win_prefixes(),
{
    let mut r: Vec<Vec<char>> = Vec::new();
    let mut i: usize = 0;
    while i < 104
        invariant
            i <= 104,
            r@.len() == i,
            forall|j: int| 0 <= j < i ==> #[trigger] r@[j]@ == win_prefixes()[j],
        decreases 104 - i,
    {
        let sep = if i < 52 { '\\' } else { '/' };
        let letter = if i < 52 { drive_letter_exec(i) } else { drive_letter_exec(i - 52) };
        let mut p: Vec<char> = Vec::new();
        p.push(letter);
        p.push(':');
        p.push(sep);
        assert(p@ =~= win_prefixes()[i as int]);
        r.push(p);
        i = i + 1;
    }
    assert(r@.map_values(|p: Vec<char>| p@) =~= win_prefixes());
    r
}

fn is_win_drive(t: &[char]) -> (r: bool)
    requires
        t@.len() == 2,
    ensures
        r == win_drives().contains(t@),
{
    let mut k: usize = 0;
    while k < 52
        invariant
            t@.len() == 2,
            k <= 52,
            forall|j: int| 0 <= j < k ==> #[trigger] win_drives()[j] != t@,
        decreases 52 - k,
    {
        if t[0] == drive_letter_exec(k) && t[1] == ':' {
            assert(t@ =~= win_drives()[k as int]);
            return true;
        }
        assert(t@[0] != win_drives()[k as int][0] || t@[1] != win_drives()[k as int][1]);
        k = k + 1;
    }
    false
}

/// Classifies a request target (`Resolver::get_target_kind`).
pub fn get_target_kind(target: &[char]) -> (r: PathKind)
    ensures
        r == spec_target_kind(target@),
{
    if target.len() == 0 {
        return PathKind::Relative;
    }
    if target[0] == '#' {
        return PathKind::Internal;
    }
    if target[0] == '/' {
        return PathKind::AbsolutePosix;
    }
    let dot_slash = target.len() >= 2 && target[0] == '.' && target[1] == '/';
    let dot_dot_slash = target.len() >= 3 && target[0] == '.' && target[1] == '.' && target[2]
        == '/';
    let dot = target.len() == 1 && target[0] == '.';
    let dot_dot = target.len() == 2 && target[0] == '.' && target[1] == '.';
    proof {
        if target@ == seq!['.'] {
            assert(target@[0] == '.');
        }
        if target@ == seq!['.', '.'] {
            assert(target@[1] == '.');
        }
        if seq_starts_with(target@, seq!['.', '/']) {
            assert(target@.subrange(0, 2)[1] == '/');
        }
        if seq_starts_with(target@, seq!['.', '.', '/']) {
            assert(target@.subrange(0, 3)[2] == '/');
            assert(target@.subrange(0, 3)[1] == '.');
        }
        if dot {
            assert(target@ =~= seq!['.']);
        }
        if dot_dot {
            assert(target@ =~= seq!['.', '.']);
        }
        if dot_slash {
            assert(target@.subrange(0, 2) =~= seq!['.', '/']);
        }
        if dot_dot_slash {
            assert(target@.subrange(0, 3) =~= seq!['.', '.', '/']);
        }
    }
    if dot || dot_slash || dot_dot_slash || dot_dot {
        return PathKind::Relative;
    }
    if target.len() == 2 && is_win_drive(target) {
        return PathKind::AbsoluteWin;
    }
    let patterns = win_prefix_list();
    let ghost pats = patterns@.map_values(|p: Vec<char>| p@);
    match leftmost_longest_find(&patterns, target) {
        Some((start, end, value)) => {
            if start == 0 && end - start == patterns[value].len() {
                assert(seq_starts_with(target@, win_prefixes()[value as int]));
                return PathKind::AbsoluteWin;
            }
            proof {
                assert forall|i: int| 0 <= i < win_prefixes().len() implies !seq_starts_with(
                    target@,
                    #[trigger] win_prefixes()[i],
                ) by {
                    assert(!occurs_at(target@, pats[i], 0));
                }
            }
        },
        None => {
            proof {
                assert forall|i: int| 0 <= i < win_prefixes().len() implies !seq_starts_with(
                    target@,
                    #[trigger] win_prefixes()[i],
                ) by {
                    assert(!occurs_at(target@, pats[i], 0));
                }
            }
        },
    }
    PathKind::Normal
}

} // verus!
