//! `/proc/modules`: the loaded kernel modules, one per line.

use vstd::prelude::*;
use crate::error::InternalError;
use crate::entries::{keys_unique, lemma_seq_map_last, pair_views, seq_map};
use crate::lineformat::{all_ok, entry_lines, first_fault, ok_values, read_entries, EntryFormat, LineFault};
use crate::number::{decimal_in, decimal_value, parse_i32, parse_u32};
use crate::text::{lines, chars_eq, string_from_chars, string_views, strings_from, tokenize, tokens, Separator};

verus! {

/// A loaded kernel module.
#[derive(Debug)]
pub struct KernelModule {
    /// The name of the module.
    pub name: String,
    /// The size of the module, in bytes.
    pub size: u32,
    /// The number of references held on the module.
    pub refcount: i32,
    /// The names of the modules that use this one.
    pub used_by: Vec<String>,
    /// The state of the module: `Live`, `Loading` or `Unloading`.
    pub state: String,
}

/// The loaded kernel modules, by name: each name once.
#[derive(Debug)]
pub struct KernelModules(pub Vec<(String, KernelModule)>);

/// Name, size, reference count, users and state of a module.
pub type ModuleFields = (Seq<char>, u32, i32, Seq<Seq<char>>, Seq<char>);

impl View for KernelModule {
    type V = ModuleFields;

    open spec fn view(&self) -> ModuleFields {
        (self.name@, self.size, self.refcount, string_views(self.used_by@), self.state@)
    }
}

/// The users listed in the fourth field: `-` for none, else names separated
/// by commas (empty names left out).
pub open spec fn users_of(field: Seq<char>) -> Seq<Seq<char>> {
    if field == seq!['-'] {
        seq![]
    } else {
        tokens(field, Separator::Char(','))
    }
}

/// What one line of `/proc/modules` holds: name, size (`u32`), reference
/// count (`i32`), users and state, in its first five fields. The fields are
/// read in that order and the first one that is missing or not a number is
/// the fault.
pub open spec fn module_line(l: Seq<char>) -> Result<ModuleFields, LineFault> {
    let t = tokens(l, Separator::Whitespace);
    if t.len() < 2 {
        Err(LineFault::MissingField)
    } else {
        match decimal_in(t[1], false, 0, u32::MAX as int) {
            None => Err(LineFault::InvalidNumber),
            Some(size) => if t.len() < 3 {
                Err(LineFault::MissingField)
            } else {
                match decimal_in(t[2], true, i32::MIN as int, i32::MAX as int) {
                    None => Err(LineFault::InvalidNumber),
                    Some(rc) => if t.len() < 5 {
                        Err(LineFault::MissingField)
                    } else {
                        Ok((t[0], size as u32, rc as i32, users_of(t[3]), t[4]))
                    },
                }
            },
        }
    }
}

fn read_users(field: &Vec<char>) -> (r: Vec<String>)
    ensures
        string_views(r@) == users_of(field@),
{
    let mut dash: Vec<char> = Vec::new();
    dash.push('-');
    assert(dash@ =~= seq!['-']);
    if chars_eq(field, &dash) {
        let r: Vec<String> = Vec::new();
        assert(string_views(r@) =~= Seq::<Seq<char>>::empty());
        r
    } else {
        let t = tokenize(field, Separator::Char(','));
        strings_from(&t)
    }
}

fn read_module_line(l: &Vec<char>) -> (r: Result<KernelModule, LineFault>)
    ensures
        match r {
            Ok(m) => module_line(l@) == Ok::<ModuleFields, LineFault>(m@),
            Err(f) => module_line(l@) == Err::<ModuleFields, LineFault>(f),
        },
{
    let t = tokenize(l, Separator::Whitespace);
    if t.len() < 2 {
        return Err(LineFault::MissingField);
    }
    let size = match parse_u32(&t[1]) {
        Some(v) => v,
        None => return Err(LineFault::InvalidNumber),
    };
    if t.len() < 3 {
        return Err(LineFault::MissingField);
    }
    let refcount = match parse_i32(&t[2]) {
        Some(v) => v,
        None => return Err(LineFault::InvalidNumber),
    };
    if t.len() < 5 {
        return Err(LineFault::MissingField);
    }
    let m = KernelModule {
        name: string_from_chars(&t[0]),
        size,
        refcount,
        used_by: read_users(&t[3]),
        state: string_from_chars(&t[4]),
    };
    Ok(m)
}

/// The line format of `/proc/modules`, keyed by module name.
pub struct ModuleLine;

impl EntryFormat for ModuleLine {
    type Value = KernelModule;

    open spec fn entry(l: Seq<char>) -> Result<(Seq<char>, ModuleFields), LineFault> {
        match module_line(l) {
            Ok(f) => Ok((f.0, f)),
            Err(e) => Err(e),
        }
    }

    fn read_entry(l: &Vec<char>) -> (r: Result<(String, KernelModule), LineFault>) {
        match read_module_line(l) {
            Ok(m) => Ok((m.name.clone(), m)),
            Err(f) => Err(f),
        }
    }
}

impl KernelModules {
    /// Reads the text of `/proc/modules`. Every line must hold a name, a size,
    /// a reference count, a list of users and a state; the first line that
    /// does not is the error. A name on several lines keeps the module of the
    /// last one.
    pub fn from_text(text: &str) -> (r: Result<KernelModules, InternalError>)
        ensures
            match r {
                Ok(m) => all_ok(entry_lines::<ModuleLine>(text@)) && keys_unique(pair_views(m.0@))
                    && seq_map(pair_views(m.0@)) == seq_map(ok_values(entry_lines::<ModuleLine>(text@))),
                Err(e) => exists|i: int| first_fault(entry_lines::<ModuleLine>(text@), i, e),
            },
    {
        match read_entries::<ModuleLine>(text) {
            Ok(v) => Ok(KernelModules(v)),
            Err(e) => Err(e),
        }
    }
}

/// The fields that a `/proc/modules` line with whitespace-separated fields
/// `t` describes: name `t[0]`, size the value of `t[1]`, reference count the
/// value of `t[2]`, users the comma-separated names of `t[3]` (none for `-`),
/// state `t[4]`.
pub open spec fn fields_match(t: Seq<Seq<char>>, f: ModuleFields) -> bool {
    &&& t.len() >= 5
    &&& f.0 == t[0]
    &&& decimal_value(t[1], false) == Some(f.1 as int)
    &&& decimal_value(t[2], true) == Some(f.2 as int)
    &&& f.3 == (if t[3] == seq!['-'] {
        Seq::<Seq<char>>::empty()
    } else {
        tokens(t[3], Separator::Char(','))
    })
    &&& f.4 == t[4]
}

/// A line with at least five fields, whose second is a decimal in the range
/// of `u32` and whose third is a decimal in the range of `i32`, is read as
/// the module those fields describe; and whatever a line is read as is
/// described by its fields.
pub proof fn law_module_line(l: Seq<char>)
    ensures
        ({
            let t = tokens(l, Separator::Whitespace);
            &&& (t.len() >= 5 && (decimal_value(t[1], false) matches Some(sz) && 0 <= sz
                <= u32::MAX) && (decimal_value(t[2], true) matches Some(rc) && i32::MIN <= rc
                <= i32::MAX)) ==> (module_line(l) matches Ok(f) && fields_match(t, f))
            &&& (module_line(l) matches Ok(f) ==> fields_match(t, f))
        }),
{
}

/// In a modules text that reads, every line's name is a module, and every
/// module is described by the last line that names it.
pub proof fn law_module_values(text: Seq<char>)
    requires
        all_ok(entry_lines::<ModuleLine>(text)),
    ensures
        ({
            let ls = lines(text);
            let m = seq_map(ok_values(entry_lines::<ModuleLine>(text)));
            &&& forall|i: int|
                0 <= i < ls.len() ==> m.dom().contains(
                    #[trigger] tokens(ls[i], Separator::Whitespace)[0],
                )
            &&& forall|k: Seq<char>|
                m.dom().contains(k) ==> m[k].0 == k && exists|i: int|
                    0 <= i < ls.len() && fields_match(tokens(ls[i], Separator::Whitespace), m[k])
                        && forall|j: int|
                        i < j < ls.len() ==> tokens(ls[j], Separator::Whitespace)[0] != k
        }),
{
    let ls = lines(text);
    let rs = entry_lines::<ModuleLine>(text);
    let ov = ok_values(rs);
    let m = seq_map(ov);
    assert forall|i: int| 0 <= i < ls.len() implies ov[i].0 == ov[i].1.0 && fields_match(
        tokens(ls[i], Separator::Whitespace),
        ov[i].1,
    ) by {
        assert(rs[i] is Ok);
        law_module_line(ls[i]);
    }
    assert forall|i: int| 0 <= i < ls.len() implies m.dom().contains(
        #[trigger] tokens(ls[i], Separator::Whitespace)[0],
    ) by {
        lemma_seq_map_last(ov, ov[i].0);
    }
    assert forall|k: Seq<char>| m.dom().contains(k) implies m[k].0 == k && exists|i: int|
        0 <= i < ls.len() && fields_match(tokens(ls[i], Separator::Whitespace), m[k]) && forall|
            j: int,
        | i < j < ls.len() ==> tokens(ls[j], Separator::Whitespace)[0] != k by {
        lemma_seq_map_last(ov, k);
        let i = choose|i: int|
            0 <= i < ov.len() && ov[i].0 == k && ov[i].1 == m[k] && forall|j: int|
                i < j < ov.len() ==> ov[j].0 != k;
        assert forall|j: int| i < j < ls.len() implies tokens(ls[j], Separator::Whitespace)[0]
            != k by {
            assert(ov[j].0 != k);
        }
    }
}

} // verus!
