//! `/proc/vmstat`: one statistic per line, a name and a signed value.

use vstd::prelude::*;
use crate::entries::{keys_unique, lemma_seq_map_last, pair_views, seq_map};
use crate::error::InternalError;
use crate::lineformat::{all_ok, entry_lines, first_fault, ok_values, read_entries, EntryFormat, LineFault};
use crate::number::{decimal_in, decimal_value, parse_i64};
use crate::text::{lines, string_from_chars, tokenize, tokens, Separator};

verus! {

/// Virtual memory statistics: each name once, with its value.
#[derive(Debug)]
pub struct VmStat(pub Vec<(String, i64)>);

/// The line format of `/proc/vmstat`.
pub struct VmStatLine;

/// What one line of `/proc/vmstat` holds: its first field is the name, its
/// second the value as an `i64`; further fields are ignored.
pub open spec fn vmstat_line(l: Seq<char>) -> Result<(Seq<char>, i64), LineFault> {
    let t = tokens(l, Separator::Whitespace);
    if t.len() < 2 {
        Err(LineFault::MissingField)
    } else {
        match decimal_in(t[1], true, i64::MIN as int, i64::MAX as int) {
            Some(v) => Ok((t[0], v as i64)),
            None => Err(LineFault::InvalidNumber),
        }
    }
}

impl EntryFormat for VmStatLine {
    type Value = i64;

    open spec fn entry(l: Seq<char>) -> Result<(Seq<char>, i64), LineFault> {
        vmstat_line(l)
    }

    fn read_entry(l: &Vec<char>) -> (r: Result<(String, i64), LineFault>) {
        let t = tokenize(l, Separator::Whitespace);
        if t.len() < 2 {
            return Err(LineFault::MissingField);
        }
        match parse_i64(&t[1]) {
            Some(v) => Ok((string_from_chars(&t[0]), v)),
            None => Err(LineFault::InvalidNumber),
        }
    }
}

impl VmStat {
    /// Reads the text of `/proc/vmstat`. Every line must hold a name and an
    /// `i64` value; the first line that does not is the error. A name on
    /// several lines keeps the value of the last one.
    pub fn from_text(text: &str) -> (r: Result<VmStat, InternalError>)
        ensures
            match r {
                Ok(s) => all_ok(entry_lines::<VmStatLine>(text@)) && keys_unique(pair_views(s.0@))
                    && seq_map(pair_views(s.0@)) == seq_map(ok_values(entry_lines::<VmStatLine>(text@))),
                Err(e) => exists|i: int| first_fault(entry_lines::<VmStatLine>(text@), i, e),
            },
    {
        match read_entries::<VmStatLine>(text) {
            Ok(v) => Ok(VmStat(v)),
            Err(e) => Err(e),
        }
    }
}

/// A line is read as its first field, named with the value of its second
/// field: any decimal in the range of `i64` is accepted, and nothing else.
pub proof fn law_vmstat_line(l: Seq<char>)
    ensures
        ({
            let t = tokens(l, Separator::Whitespace);
            &&& (t.len() >= 2 && (decimal_value(t[1], true) matches Some(v) && i64::MIN <= v
                <= i64::MAX)) ==> vmstat_line(l) == Ok::<(Seq<char>, i64), LineFault>(
                (t[0], decimal_value(t[1], true)->0 as i64),
            )
            &&& (vmstat_line(l) matches Ok(p) ==> t.len() >= 2 && p.0 == t[0] && decimal_value(
                t[1],
                true,
            ) == Some(p.1 as int))
        }),
{
}

/// In a statistics text that reads, every line's name is a statistic, and
/// every statistic has the value written on the last line that names it.
pub proof fn law_vmstat_values(text: Seq<char>)
    requires
        all_ok(entry_lines::<VmStatLine>(text)),
    ensures
        ({
            let ls = lines(text);
            let m = seq_map(ok_values(entry_lines::<VmStatLine>(text)));
            &&& forall|i: int|
                0 <= i < ls.len() ==> m.dom().contains(
                    #[trigger] tokens(ls[i], Separator::Whitespace)[0],
                )
            &&& forall|k: Seq<char>|
                m.dom().contains(k) ==> exists|i: int|
                    0 <= i < ls.len() && tokens(ls[i], Separator::Whitespace)[0] == k
                        && decimal_value(tokens(ls[i], Separator::Whitespace)[1], true) == Some(
                        m[k] as int,
                    ) && forall|j: int|
                        i < j < ls.len() ==> tokens(ls[j], Separator::Whitespace)[0] != k
        }),
{
    let ls = lines(text);
    let rs = entry_lines::<VmStatLine>(text);
    let ov = ok_values(rs);
    let m = seq_map(ov);
    assert forall|i: int| 0 <= i < ls.len() implies ov[i].0 == tokens(ls[i], Separator::Whitespace)[0]
        && decimal_value(tokens(ls[i], Separator::Whitespace)[1], true) == Some(ov[i].1 as int) by {
        assert(rs[i] is Ok);
        law_vmstat_line(ls[i]);
    }
    assert forall|i: int| 0 <= i < ls.len() implies m.dom().contains(
        #[trigger] tokens(ls[i], Separator::Whitespace)[0],
    ) by {
        lemma_seq_map_last(ov, ov[i].0);
    }
    assert forall|k: Seq<char>| m.dom().contains(k) implies exists|i: int|
        0 <= i < ls.len() && tokens(ls[i], Separator::Whitespace)[0] == k && decimal_value(
            tokens(ls[i], Separator::Whitespace)[1],
            true,
        ) == Some(m[k] as int) && forall|j: int|
            i < j < ls.len() ==> tokens(ls[j], Separator::Whitespace)[0] != k by {
        lemma_seq_map_last(ov, k);
        let i = choose|i: int|
            0 <= i < ov.len() && ov[i].0 == k && ov[i].1 == m[k] && forall|j: int|
                i < j < ov.len() ==> ov[j].0 != k;
        assert forall|j: int| i < j < ls.len() implies tokens(ls[j], Separator::Whitespace)[0]
            != k by {
            assert(ov[j].0 != k);
        }
    }
}

} // verus!
