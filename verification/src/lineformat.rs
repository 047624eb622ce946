//! What the line-oriented `/proc` formats share: a text is read line by
//! line, each line gives an entry or a fault, and the first fault ends the
//! reading.

use vstd::prelude::*;
use crate::entries::{keys_unique, pair_views, seq_map, set_entry};
use crate::error::InternalError;
use crate::text::{chars_of, lines, lines_of, seqs_of};

verus! {

/// Why one line could not be read.
#[derive(Clone, Copy, PartialEq, Eq, Debug)]
pub enum LineFault {
    MissingField,
    InvalidNumber,
}

/// The error reported for a fault on line `line`.
pub open spec fn fault_error(f: LineFault, line: int) -> InternalError {
    match f {
        LineFault::MissingField => InternalError::MissingField { line: line as usize },
        LineFault::InvalidNumber => InternalError::InvalidNumber { line: line as usize },
    }
}

pub fn to_error(f: LineFault, line: usize) -> (e: InternalError)
    ensures
        e == fault_error(f, line as int),
{
    match f {
        LineFault::MissingField => InternalError::MissingField { line },
        LineFault::InvalidNumber => InternalError::InvalidNumber { line },
    }
}

/// Every line was read.
pub open spec fn all_ok<T>(rs: Seq<Result<T, LineFault>>) -> bool {
    forall|i: int| 0 <= i < rs.len() ==> (#[trigger] rs[i]) is Ok
}

/// The entries of lines that were all read.
pub open spec fn ok_values<T>(rs: Seq<Result<T, LineFault>>) -> Seq<T> {
    rs.map_values(|r: Result<T, LineFault>| r->Ok_0)
}

/// Line `i` is the first that could not be read, and `e` reports it.
pub open spec fn first_fault<T>(rs: Seq<Result<T, LineFault>>, i: int, e: InternalError) -> bool {
    &&& 0 <= i < rs.len()
    &&& forall|j: int| 0 <= j < i ==> (#[trigger] rs[j]) is Ok
    &&& rs[i] matches Err(f) && e == fault_error(f, i)
}

/// A format whose every line names one value.
pub trait EntryFormat {
    type Value: View;

    /// What one line holds: a name and a value, or the fault that stops the
    /// reading.
    spec fn entry(l: Seq<char>) -> Result<(Seq<char>, <Self::Value as View>::V), LineFault>;

    /// Reads one line.
    fn read_entry(l: &Vec<char>) -> (r: Result<(String, Self::Value), LineFault>)
        ensures
            match r {
                Ok(p) => Self::entry(l@) == Ok::<(Seq<char>, <Self::Value as View>::V), LineFault>(
                    (p.0@, p.1@),
                ),
                Err(f) => Self::entry(l@) == Err::<
                    (Seq<char>, <Self::Value as View>::V),
                    LineFault,
                >(f),
            },
    ;
}

/// What each line of a text holds, in a given format.
pub open spec fn entry_lines<F: EntryFormat>(text: Seq<char>) -> Seq<
    Result<(Seq<char>, <F::Value as View>::V), LineFault>,
> {
    lines(text).map_values(|l: Seq<char>| F::entry(l))
}

/// Reads every line of `text` in format `F` into a list where each name
/// occurs once, with the value of its last line. The first line that cannot
/// be read is the error.
pub fn read_entries<F: EntryFormat>(text: &str) -> (r: Result<Vec<(String, F::Value)>, InternalError>)
    ensures
        match r {
            Ok(v) => all_ok(entry_lines::<F>(text@)) && keys_unique(pair_views(v@)) && seq_map(
                pair_views(v@),
            ) == seq_map(ok_values(entry_lines::<F>(text@))),
            Err(e) => exists|i: int| first_fault(entry_lines::<F>(text@), i, e),
        },
{
    let chars = chars_of(text);
    let ls = lines_of(&chars);
    let ghost rs = entry_lines::<F>(text@);
    let mut out: Vec<(String, F::Value)> = Vec::new();
    let mut i: usize = 0;
    assert(ok_values(rs.take(0)) =~= Seq::<(Seq<char>, <F::Value as View>::V)>::empty());
    assert(pair_views(out@) =~= Seq::<(Seq<char>, <F::Value as View>::V)>::empty());
    while i < ls.len()
        invariant
            i <= ls.len(),
            rs == entry_lines::<F>(text@),
            seqs_of(ls@) == lines(text@),
            rs.len() == ls.len(),
            forall|j: int| 0 <= j < i ==> (#[trigger] rs[j]) is Ok,
            keys_unique(pair_views(out@)),
            seq_map(pair_views(out@)) == seq_map(ok_values(rs.take(i as int))),
        decreases ls.len() - i,
    {
        assert(rs[i as int] == F::entry(ls@[i as int]@));
        match F::read_entry(&ls[i]) {
            Ok(p) => {
                let ghost pv = (p.0@, p.1@);
                set_entry(&mut out, p.0, p.1);
                assert(rs.take(i + 1) =~= rs.take(i as int).push(rs[i as int]));
                let ghost ov = ok_values(rs.take(i + 1));
                assert(ov.drop_last() =~= ok_values(rs.take(i as int)));
                assert(ov.last() == pv);
            },
            Err(f) => {
                let e = to_error(f, i);
                assert(first_fault(rs, i as int, e));
                return Err(e);
            },
        }
        i = i + 1;
    }
    assert(rs.take(i as int) =~= rs);
    Ok(out)
}

} // verus!
