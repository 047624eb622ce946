//! Kernel build configuration files (`/proc/config.gz` once decompressed,
//! `/boot/config-*`): `NAME=value` lines and `#` comments.

use std::io::Read;
use vstd::prelude::*;
use vstd::utf8::{decode_utf8, valid_utf8};
use crate::entries::{keys_unique, pair_views, seq_map, set_entry};
use crate::text::{chars_of, lines, lines_of, seqs_of, string_from_chars};

verus! {

/// The value of a kernel configuration option.
#[derive(Debug)]
pub enum ConfigSetting {
    /// `y`: built into the kernel.
    Yes,
    /// `m`: built as a module.
    Module,
    /// Any other value, as written.
    Value(String),
}

/// A configuration value as characters.
pub enum SettingView {
    Yes,
    Module,
    Value(Seq<char>),
}

impl View for ConfigSetting {
    type V = SettingView;

    open spec fn view(&self) -> SettingView {
        match self {
            ConfigSetting::Yes => SettingView::Yes,
            ConfigSetting::Module => SettingView::Module,
            ConfigSetting::Value(v) => SettingView::Value(v@),
        }
    }
}

/// The options of a kernel configuration: each name once, with its value.
#[derive(Debug)]
pub struct KernelConfig(pub Vec<(String, ConfigSetting)>);

/// `k` is where the first `'='` of `l` stands.
pub open spec fn is_first_eq(l: Seq<char>, k: int) -> bool {
    &&& 0 <= k < l.len()
    &&& l[k] == '='
    &&& forall|j: int| 0 <= j < k ==> l[j] != '='
}

/// The setting that a value denotes: `y`, `m`, or the value itself.
pub open spec fn setting_of(v: Seq<char>) -> SettingView {
    if v == seq!['y'] {
        SettingView::Yes
    } else if v == seq!['m'] {
        SettingView::Module
    } else {
        SettingView::Value(v)
    }
}

/// What one line of a configuration holds: nothing for a line that starts
/// with `#` or has no `=`; else the option named by what comes before the
/// first `=`, set to what comes after it.
pub open spec fn config_line(l: Seq<char>) -> Option<(Seq<char>, SettingView)> {
    if l.len() > 0 && l[0] == '#' {
        None
    } else if exists|k: int| is_first_eq(l, k) {
        let k = choose|k: int| is_first_eq(l, k);
        Some((l.take(k), setting_of(l.skip(k + 1))))
    } else {
        None
    }
}

/// The options set by a sequence of lines, in order.
pub open spec fn config_options(ls: Seq<Seq<char>>) -> Seq<(Seq<char>, SettingView)>
    decreases ls.len(),
{
    if ls.len() == 0 {
        seq![]
    } else {
        let prev = config_options(ls.drop_last());
        match config_line(ls.last()) {
            Some(e) => prev.push(e),
            None => prev,
        }
    }
}

/// A line that does not start with `#` and whose first `=` stands at `k`
/// sets the option named by the characters before that `=`: to `Yes` when
/// the rest of the line is `y`, to `Module` when it is `m`, and otherwise to
/// exactly the characters after the `=`. A line that starts with `#` or has
/// no `=` sets nothing.
pub proof fn law_config_line(l: Seq<char>, k: int)
    ensures
        !(l.len() > 0 && l[0] == '#') && is_first_eq(l, k) ==> {
            let v = l.skip(k + 1);
            &&& v == seq!['y'] ==> config_line(l) == Some((l.take(k), SettingView::Yes))
            &&& v == seq!['m'] ==> config_line(l) == Some((l.take(k), SettingView::Module))
            &&& (v != seq!['y'] && v != seq!['m']) ==> config_line(l) == Some(
                (l.take(k), SettingView::Value(v)),
            )
        },
        (l.len() > 0 && l[0] == '#') ==> config_line(l) is None,
        (forall|j: int| 0 <= j < l.len() ==> l[j] != '=') ==> config_line(l) is None,
{
    if !(l.len() > 0 && l[0] == '#') && is_first_eq(l, k) {
        let c = choose|c: int| is_first_eq(l, c);
        if c < k {
            assert(l[c] == '=');
        } else if k < c {
            assert(l[k] == '=');
        }
        assert(c == k);
        let v = l.skip(k + 1);
        if v == seq!['m'] {
            assert(v != seq!['y']) by {
                assert(v[0] != seq!['y'][0]);
            }
        }
    }
}

/// Whether line `l` of a configuration sets the option `name`.
pub open spec fn sets_option(l: Seq<char>, name: Seq<char>) -> bool {
    config_line(l) matches Some(e) && e.0 == name
}

proof fn lemma_config_options_map(ls: Seq<Seq<char>>, name: Seq<char>)
    ensures
        seq_map(config_options(ls)).dom().contains(name) <==> exists|i: int|
            0 <= i < ls.len() && sets_option(#[trigger] ls[i], name),
        seq_map(config_options(ls)).dom().contains(name) ==> exists|i: int|
            0 <= i < ls.len() && config_line(#[trigger] ls[i]) == Some(
                (name, seq_map(config_options(ls))[name]),
            ) && forall|j: int| i < j < ls.len() ==> !sets_option(#[trigger] ls[j], name),
    decreases ls.len(),
{
    if ls.len() > 0 {
        let pre = ls.drop_last();
        let n = ls.len() - 1;
        lemma_config_options_map(pre, name);
        let prev = config_options(pre);
        assert forall|j: int| 0 <= j < n implies #[trigger] pre[j] == ls[j] by {}
        match config_line(ls.last()) {
            Some(e) => {
                assert(prev.push(e).drop_last() =~= prev);
                assert(seq_map(config_options(ls)) == seq_map(prev).insert(e.0, e.1));
                if e.0 == name {
                    assert(config_line(ls[n]) == Some((name, seq_map(config_options(ls))[name])));
                    assert(sets_option(ls[n], name));
                } else {
                    if seq_map(config_options(ls)).dom().contains(name) {
                        let i = choose|i: int|
                            0 <= i < pre.len() && config_line(#[trigger] pre[i]) == Some(
                                (name, seq_map(prev)[name]),
                            ) && forall|j: int| i < j < pre.len() ==> !sets_option(#[trigger] pre[j], name);
                        assert forall|j: int| i < j < ls.len() implies !sets_option(#[trigger] ls[j], name) by {
                            if j < n {
                                assert(pre[j] == ls[j]);
                            }
                        }
                        assert(config_line(ls[i]) == Some((name, seq_map(config_options(ls))[name])));
                    }
                    if exists|i: int| 0 <= i < ls.len() && sets_option(#[trigger] ls[i], name) {
                        let i = choose|i: int| 0 <= i < ls.len() && sets_option(#[trigger] ls[i], name);
                        assert(pre[i] == ls[i]);
                    }
                }
            },
            None => {
                assert(config_options(ls) == prev);
                assert(!sets_option(ls[n], name));
                if seq_map(config_options(ls)).dom().contains(name) {
                    let i = choose|i: int|
                        0 <= i < pre.len() && config_line(#[trigger] pre[i]) == Some(
                            (name, seq_map(prev)[name]),
                        ) && forall|j: int| i < j < pre.len() ==> !sets_option(#[trigger] pre[j], name);
                    assert forall|j: int| i < j < ls.len() implies !sets_option(#[trigger] ls[j], name) by {
                        if j < n {
                            assert(pre[j] == ls[j]);
                        }
                    }
                    assert(config_line(ls[i]) == Some((name, seq_map(config_options(ls))[name])));
                }
                if exists|i: int| 0 <= i < ls.len() && sets_option(#[trigger] ls[i], name) {
                    let i = choose|i: int| 0 <= i < ls.len() && sets_option(#[trigger] ls[i], name);
                    assert(pre[i] == ls[i]);
                }
            },
        }
    }
}

/// The options of a configuration text are the names that its lines set,
/// each with the setting of the last line that sets it.
pub proof fn law_config_options(text: Seq<char>, name: Seq<char>)
    ensures
        ({
            let ls = lines(text);
            let m = seq_map(config_options(ls));
            &&& m.dom().contains(name) <==> exists|i: int|
                0 <= i < ls.len() && sets_option(#[trigger] ls[i], name)
            &&& m.dom().contains(name) ==> exists|i: int|
                0 <= i < ls.len() && config_line(#[trigger] ls[i]) == Some((name, m[name]))
                    && forall|j: int| i < j < ls.len() ==> !sets_option(#[trigger] ls[j], name)
        }),
{
    lemma_config_options_map(lines(text), name);
}

fn first_eq(l: &Vec<char>) -> (r: Option<usize>)
    ensures
        match r {
            Some(k) => is_first_eq(l@, k as int),
            None => forall|j: int| 0 <= j < l@.len() ==> l@[j] != '=',
        },
{
    let mut i: usize = 0;
    while i < l.len()
        invariant
            i <= l.len(),
            forall|j: int| 0 <= j < i ==> l@[j] != '=',
        decreases l.len() - i,
    {
        if l[i] == '=' {
            return Some(i);
        }
        i = i + 1;
    }
    None
}

fn sub_chars(l: &Vec<char>, from: usize, to: usize) -> (r: Vec<char>)
    requires
        from <= to <= l.len(),
    ensures
        r@ == l@.subrange(from as int, to as int),
{
    let mut r: Vec<char> = Vec::new();
    let mut i = from;
    while i < to
        invariant
            from <= i <= to <= l.len(),
            r@ == l@.subrange(from as int, i as int),
        decreases to - i,
    {
        r.push(l[i]);
        i = i + 1;
        assert(r@ =~= l@.subrange(from as int, i as int));
    }
    r
}

fn read_setting(v: &Vec<char>) -> (r: ConfigSetting)
    ensures
        r@ == setting_of(v@),
{
    if v.len() == 1 && v[0] == 'y' {
        assert(v@ =~= seq!['y']);
        ConfigSetting::Yes
    } else if v.len() == 1 && v[0] == 'm' {
        assert(v@ =~= seq!['m']);
        assert(v@ != seq!['y']) by {
            assert(v@[0] != seq!['y'][0]);
        }
        ConfigSetting::Module
    } else {
        assert(v@ != seq!['y']) by {
            if v@.len() == 1 {
                assert(v@[0] != seq!['y'][0]);
            }
        }
        assert(v@ != seq!['m']) by {
            if v@.len() == 1 {
                assert(v@[0] != seq!['m'][0]);
            }
        }
        ConfigSetting::Value(string_from_chars(v))
    }
}

fn read_config_line(l: &Vec<char>) -> (r: Option<(String, ConfigSetting)>)
    ensures
        match r {
            Some(p) => config_line(l@) == Some((p.0@, p.1@)),
            None => config_line(l@) is None,
        },
{
    if l.len() > 0 && l[0] == '#' {
        return None;
    }
    match first_eq(l) {
        None => None,
        Some(k) => {
            proof {
                let c = choose|c: int| is_first_eq(l@, c);
                if c < k {
                    assert(l@[c] == '=');
                } else if k < c {
                    assert(l@[k as int] == '=');
                }
                assert(c == k);
            }
            let name = sub_chars(l, 0, k);
            let value = sub_chars(l, k + 1, l.len());
            assert(name@ =~= l@.take(k as int));
            assert(value@ =~= l@.skip(k + 1));
            Some((string_from_chars(&name), read_setting(&value)))
        },
    }
}

impl KernelConfig {
    /// Reads the text of a kernel configuration. An option set on several
    /// lines keeps the value of the last one.
    pub fn from_text(text: &str) -> (r: KernelConfig)
        ensures
            keys_unique(pair_views(r.0@)),
            seq_map(pair_views(r.0@)) == seq_map(config_options(lines(text@))),
    {
        let chars = chars_of(text);
        let ls = lines_of(&chars);
        let ghost lv = lines(text@);
        let mut out: Vec<(String, ConfigSetting)> = Vec::new();
        let mut i: usize = 0;
        assert(lv.take(0) =~= Seq::<Seq<char>>::empty());
        assert(pair_views(out@) =~= Seq::<(Seq<char>, SettingView)>::empty());
        while i < ls.len()
            invariant
                i <= ls.len(),
                seqs_of(ls@) == lv,
                lv == lines(text@),
                keys_unique(pair_views(out@)),
                seq_map(pair_views(out@)) == seq_map(config_options(lv.take(i as int))),
            decreases ls.len() - i,
        {
            assert(lv.take(i + 1).drop_last() =~= lv.take(i as int));
            assert(lv.take(i + 1).last() == ls@[i as int]@);
            match read_config_line(&ls[i]) {
                Some(p) => {
                    let ghost pv = (p.0@, p.1@);
                    set_entry(&mut out, p.0, p.1);
                    let ghost co = config_options(lv.take(i + 1));
                    assert(co == config_options(lv.take(i as int)).push(pv));
                    assert(co.drop_last() =~= config_options(lv.take(i as int)));
                },
                None => {},
            }
            i = i + 1;
        }
        assert(lv.take(i as int) =~= lv);
        KernelConfig(out)
    }
}

/// Why a compressed configuration could not be read.
#[derive(Debug, PartialEq, Eq)]
pub enum ConfigError {
    /// The data is not a gzip member that decompresses.
    Corrupt,
    /// The decompressed data is not UTF-8 text.
    NotUtf8,
}

/// What the first gzip member of `data` decompresses to, or `None` when
/// flate2's decoder fails on it.
pub uninterp spec fn gzip_member(data: Seq<u8>) -> Option<Seq<u8>>;

/// `flate2::read::GzDecoder` read to its end: the contents of the first gzip
/// member of `data`. The result is a function of `data` alone, named
/// `gzip_member`; what it is for a given input is left to flate2.
#[verifier::external_body]
fn gunzip(data: &[u8]) -> (r: Option<Vec<u8>>)
    ensures
        match r {
            Some(v) => gzip_member(data@) == Some(v@),
            None => gzip_member(data@) is None,
        },
{
    let mut out = Vec::new();
    match flate2::read::GzDecoder::new(data).read_to_end(&mut out) {
        Ok(_) => Some(out),
        Err(_) => None,
    }
}

/// `String::from_utf8`: the text that `bytes` encode, when they are UTF-8.
#[verifier::external_body]
fn utf8_string(bytes: Vec<u8>) -> (r: Option<String>)
    ensures
        r is Some <==> valid_utf8(bytes@),
        r matches Some(s) ==> s@ == decode_utf8(bytes@),
{
    String::from_utf8(bytes).ok()
}

impl KernelConfig {
    /// Reads a configuration from its decompressed bytes, which must be UTF-8.
    pub fn from_decompressed(bytes: Vec<u8>) -> (r: Result<KernelConfig, ConfigError>)
        ensures
            match r {
                Ok(c) => valid_utf8(bytes@) && keys_unique(pair_views(c.0@)) && seq_map(
                    pair_views(c.0@),
                ) == seq_map(config_options(lines(decode_utf8(bytes@)))),
                Err(e) => !valid_utf8(bytes@) && e == ConfigError::NotUtf8,
            },
    {
        match utf8_string(bytes) {
            None => Err(ConfigError::NotUtf8),
            Some(s) => Ok(KernelConfig::from_text(s.as_str())),
        }
    }

    /// Reads a gzip-compressed configuration (`/proc/config.gz`).
    pub fn from_gzip(data: &[u8]) -> (r: Result<KernelConfig, ConfigError>)
        ensures
            match gzip_member(data@) {
                None => r == Err::<KernelConfig, ConfigError>(ConfigError::Corrupt),
                Some(b) => match r {
                    Ok(c) => valid_utf8(b) && keys_unique(pair_views(c.0@)) && seq_map(
                        pair_views(c.0@),
                    ) == seq_map(config_options(lines(decode_utf8(b)))),
                    Err(e) => !valid_utf8(b) && e == ConfigError::NotUtf8,
                },
            },
    {
        match gunzip(data) {
            None => Err(ConfigError::Corrupt),
            Some(bytes) => KernelConfig::from_decompressed(bytes),
        }
    }
}

/// Where a kernel configuration is read from.
#[derive(Debug, Clone, Copy, PartialEq, Eq)]
pub enum ConfigSource {
    /// `/proc/config.gz`, gzip-compressed.
    ProcGz,
    /// `/boot/config-` followed by the kernel's release.
    BootRelease,
    /// `/boot/config`.
    Boot,
}

/// The first place to read the configuration of the running kernel:
/// `/proc/config.gz` when it exists, else `/boot/config-<release>`.
pub fn first_config_source(proc_gz_exists: bool) -> (s: ConfigSource)
    ensures
        s == (if proc_gz_exists {
            ConfigSource::ProcGz
        } else {
            ConfigSource::BootRelease
        }),
{
    if proc_gz_exists {
        ConfigSource::ProcGz
    } else {
        ConfigSource::BootRelease
    }
}

/// Where to read next after `src` could not be opened: only a missing
/// `/boot/config-<release>` falls back to `/boot/config`; any other failure
/// is the answer.
pub fn next_config_source(src: ConfigSource, not_found: bool) -> (r: Option<ConfigSource>)
    ensures
        r == (if src == ConfigSource::BootRelease && not_found {
            Some(ConfigSource::Boot)
        } else {
            None::<ConfigSource>
        }),
{
    match src {
        ConfigSource::BootRelease => if not_found {
            Some(ConfigSource::Boot)
        } else {
            None
        },
        _ => None,
    }
}

} // verus!
