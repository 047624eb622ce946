//! Sizes written with a unit suffix, as `/proc` files write them.

use vstd::prelude::*;
use crate::error::InternalError;
use crate::text::chars_of;

verus! {

/// The multiplier of a binary prefix letter: `k`/`K`, `m`/`M`, `g`/`G`.
pub open spec fn prefix_factor(c: char) -> Option<int> {
    if c == 'k' || c == 'K' {
        Some(1024int)
    } else if c == 'm' || c == 'M' {
        Some(1048576int)
    } else if c == 'g' || c == 'G' {
        Some(1073741824int)
    } else {
        None
    }
}

/// The number of bytes in one `unit`: `B` is one byte; a prefix letter
/// followed by `B` or `iB` (`kB`, `KiB`, `MB`, `giB`, ...) is a power of 1024.
/// Any other unit is unknown.
pub open spec fn unit_factor(unit: Seq<char>) -> Option<int> {
    if unit == seq!['B'] {
        Some(1)
    } else if (unit.len() == 2 && unit[1] == 'B') || (unit.len() == 3 && unit[1] == 'i' && unit[2]
        == 'B') {
        prefix_factor(unit[0])
    } else {
        None
    }
}

fn factor_of(u: &Vec<char>) -> (r: Option<u64>)
    ensures
        match r {
            Some(f) => unit_factor(u@) == Some(f as int),
            None => unit_factor(u@) is None,
        },
{
    let n = u.len();
    if n == 1 && u[0] == 'B' {
        assert(u@ =~= seq!['B']);
        return Some(1);
    }
    if n == 1 {
        assert(u@ != seq!['B']) by {
            assert(u@[0] != seq!['B'][0]);
        }
        return None;
    }
    if !((n == 2 && u[1] == 'B') || (n == 3 && u[1] == 'i' && u[2] == 'B')) {
        assert(u@ != seq!['B']) by {
            assert(u@.len() != seq!['B'].len());
        }
        return None;
    }
    assert(u@ != seq!['B']) by {
        assert(u@.len() != seq!['B'].len());
    }
    let c = u[0];
    if c == 'k' || c == 'K' {
        Some(1024)
    } else if c == 'm' || c == 'M' {
        Some(1048576)
    } else if c == 'g' || c == 'G' {
        Some(1073741824)
    } else {
        None
    }
}

/// The number of bytes in `num` units of `unit`; an unknown unit is an
/// error that names it.
pub fn convert_to_kibibytes(num: u64, unit: &str) -> (r: Result<u64, InternalError>)
    requires
        unit_factor(unit@) matches Some(f) ==> num * f <= u64::MAX,
    ensures
        match r {
            Ok(v) => unit_factor(unit@) matches Some(f) && v == num * f,
            Err(e) => unit_factor(unit@) is None && (e matches InternalError::UnknownUnit { unit: u }
                && u@ == unit@),
        },
{
    let u = chars_of(unit);
    match factor_of(&u) {
        Some(f) => Ok(num * f),
        None => Err(InternalError::UnknownUnit { unit: unit.to_owned() }),
    }
}

/// The thirteen spellings of a unit and the number of bytes each stands for:
/// `B` is one byte; `KiB`, `kiB`, `kB`, `KB` are 1024 bytes; `MiB`, `miB`,
/// `MB`, `mB` are 1024 KiB; `GiB`, `giB`, `GB`, `gB` are 1024 MiB. Every other
/// unit is unknown.
pub proof fn law_unit_sizes(u: Seq<char>)
    ensures
        unit_factor(seq!['B']) == Some(1int),
        unit_factor(seq!['K', 'i', 'B']) == Some(1024int),
        unit_factor(seq!['k', 'i', 'B']) == Some(1024int),
        unit_factor(seq!['k', 'B']) == Some(1024int),
        unit_factor(seq!['K', 'B']) == Some(1024int),
        unit_factor(seq!['M', 'i', 'B']) == Some(1048576int),
        unit_factor(seq!['m', 'i', 'B']) == Some(1048576int),
        unit_factor(seq!['M', 'B']) == Some(1048576int),
        unit_factor(seq!['m', 'B']) == Some(1048576int),
        unit_factor(seq!['G', 'i', 'B']) == Some(1073741824int),
        unit_factor(seq!['g', 'i', 'B']) == Some(1073741824int),
        unit_factor(seq!['G', 'B']) == Some(1073741824int),
        unit_factor(seq!['g', 'B']) == Some(1073741824int),
        unit_factor(u) is Some ==> {
            ||| u == seq!['B'] ||| u == seq!['K', 'i', 'B'] ||| u == seq!['k', 'i', 'B'] ||| u == seq!['k', 'B'] ||| u == seq!['K', 'B'] ||| u == seq!['M', 'i', 'B'] ||| u == seq!['m', 'i', 'B'] ||| u == seq!['M', 'B'] ||| u == seq!['m', 'B'] ||| u == seq!['G', 'i', 'B'] ||| u == seq!['g', 'i', 'B'] ||| u == seq!['G', 'B'] ||| u == seq!['g', 'B']
        },
{
    if unit_factor(u) is Some {
        if u.len() == 2 || u.len() == 3 {
            let c = u[0];
            if u.len() == 2 {
                assert(u =~= seq![c, 'B']);
            } else {
                assert(u =~= seq![c, 'i', 'B']);
            }
        }
    }
}

} // verus!
