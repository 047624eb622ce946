use std::io::BufRead;
use procfs::cmdline::KernelCmdline;
use procfs::config::{ConfigError, ConfigSetting, KernelConfig};
use std::io::Write;
use procfs::modules::KernelModules;
use procfs::number::{parse_i32, parse_i64, parse_u32, parse_u64};
use procfs::stat::{BootTimeCache, BootTimeStep, KernelStats};
use procfs::config::{first_config_source, next_config_source, ConfigSource};
use procfs::sysinfo::{page_size, ticks_per_second};
use procfs::text::{chars_of, lines_of, string_from_chars, tokenize, Separator};
use procfs::vmstat::VmStat;
use procfs::{convert_to_kibibytes, InternalError};

fn cs(s: &str) -> Vec<char> {
    s.chars().collect()
}

fn strs(v: &[Vec<char>]) -> Vec<String> {
    v.iter().map(|c| c.iter().collect()).collect()
}

const VMSTAT: &str = "nr_free_pages 880223\nnr_free_pages_blocks 797184\nnr_zone_inactive_anon 547\nnr_zone_active_anon 378\nnr_zone_inactive_file 186589\n";

const MODULES: &str = "snd_hda_intel 57344 3 - Live 0x0000000000000000\nsnd_hda_codec 167936 2 snd_hda_codec_hdmi,snd_hda_intel, Live 0x0000000000000000\nvideo 65536 1 i915 Loading 0x0000000000000000\n";

const CMDLINE: &str = "mitigations=auto,no_guest_host console=ttyS0 quiet reboot=k panic=1 -- --firecracker-init";

const STAT: &str = "cpu  8770 0 1945 195736 218 0 446 4974 0 0\ncpu0 1980 0 511 49173 94 0 223 1171 0 0\nintr 1 2 3\nctxt 3449011\nbtime 1794955444\nprocesses 4313\n";

const CONFIG: &str = "#\n# Automatically generated file; DO NOT EDIT.\n#\nCONFIG_CC_VERSION_TEXT=\"gcc (GCC) 13.2.0\"\nCONFIG_64BIT=y\nCONFIG_EXT4_FS=m\n# CONFIG_KVM is not set\nCONFIG_HZ=250\nCONFIG_CMDLINE=\"a=b\"\n\n";

#[test]
fn test_statics() {
    println!("{:?}", ticks_per_second());
    println!("{:?}", page_size());
}

#[test]
fn tests_tps() {
    let tps = ticks_per_second();
    println!("{} ticks per second", tps);
}

#[test]
fn test_vmstat() {
    let stat = VmStat::from_text(VMSTAT).unwrap();
    println!("{:?}", stat);
    assert_eq!(stat.0.len(), 5);
    assert_eq!(stat.0[0], ("nr_free_pages".to_string(), 880223));
    assert_eq!(stat.0[4], ("nr_zone_inactive_file".to_string(), 186589));
}

#[test]
fn test_modules() {
    let KernelModules(mods) = KernelModules::from_text(MODULES).unwrap();
    for module in mods.iter() {
        println!("{:?}", module);
    }
    assert_eq!(mods.len(), 3);
    assert_eq!(mods[0].0, "snd_hda_intel");
    let m = &mods[0].1;
    assert_eq!(m.name, "snd_hda_intel");
    assert_eq!(m.size, 57344);
    assert_eq!(m.refcount, 3);
    assert!(m.used_by.is_empty());
    assert_eq!(m.state, "Live");
    assert_eq!(mods[1].1.used_by, vec!["snd_hda_codec_hdmi".to_string(), "snd_hda_intel".to_string()]);
    assert_eq!(mods[2].1.used_by, vec!["i915".to_string()]);
    assert_eq!(mods[2].1.state, "Loading");
}

#[test]
fn test_cmdline() {
    let KernelCmdline(cmdline) = KernelCmdline::from_text(CMDLINE);
    for argument in cmdline.iter() {
        println!("{}", argument);
    }
    assert_eq!(
        cmdline,
        vec!["mitigations=auto,no_guest_host", "console=ttyS0", "quiet", "reboot=k", "panic=1", "--", "--firecracker-init"]
    );
}

#[test]
fn cmdline_drops_empty_pieces() {
    let KernelCmdline(args) = KernelCmdline::from_text("  a  b ");
    assert_eq!(args, vec!["a", "b"]);
    let KernelCmdline(args) = KernelCmdline::from_text("");
    assert!(args.is_empty());
}

#[test]
fn units_of_every_spelling() {
    assert_eq!(convert_to_kibibytes(3, "B"), Ok(3));
    for u in ["KiB", "kiB", "kB", "KB"] {
        assert_eq!(convert_to_kibibytes(3, u), Ok(3 * 1024));
    }
    for u in ["MiB", "miB", "MB", "mB"] {
        assert_eq!(convert_to_kibibytes(3, u), Ok(3 * 1024 * 1024));
    }
    for u in ["GiB", "giB", "GB", "gB"] {
        assert_eq!(convert_to_kibibytes(3, u), Ok(3 * 1024 * 1024 * 1024));
    }
}

#[test]
fn units_unknown() {
    assert_eq!(convert_to_kibibytes(1, "TiB"), Err(InternalError::UnknownUnit { unit: "TiB".to_string() }));
    assert_eq!(convert_to_kibibytes(1, "kb"), Err(InternalError::UnknownUnit { unit: "kb".to_string() }));
    assert_eq!(convert_to_kibibytes(1, ""), Err(InternalError::UnknownUnit { unit: String::new() }));
    assert_eq!(convert_to_kibibytes(1, "b"), Err(InternalError::UnknownUnit { unit: "b".to_string() }));
}

#[test]
fn units_scale_law_on_values() {
    let g = convert_to_kibibytes(5, "GiB").unwrap();
    let m = convert_to_kibibytes(5 * 1024, "MiB").unwrap();
    let k = convert_to_kibibytes(5 * 1024 * 1024, "kB").unwrap();
    assert_eq!(g, m);
    assert_eq!(m, k);
}

#[test]
fn numbers_read_as_from_str_radix() {
    for s in ["0", "42", "+42", "-42", "", "+", "-", "007", "18446744073709551615", "18446744073709551616", "1a", " 1", "٣"] {
        assert_eq!(parse_u64(&cs(s)), u64::from_str_radix(s, 10).ok(), "u64 {:?}", s);
        assert_eq!(parse_u32(&cs(s)), u32::from_str_radix(s, 10).ok(), "u32 {:?}", s);
        assert_eq!(parse_i64(&cs(s)), i64::from_str_radix(s, 10).ok(), "i64 {:?}", s);
        assert_eq!(parse_i32(&cs(s)), i32::from_str_radix(s, 10).ok(), "i32 {:?}", s);
    }
    for s in ["4294967295", "4294967296", "2147483647", "2147483648", "-2147483648", "-2147483649", "9223372036854775807", "9223372036854775808", "-9223372036854775808", "-9223372036854775809"] {
        assert_eq!(parse_u32(&cs(s)), u32::from_str_radix(s, 10).ok(), "u32 {:?}", s);
        assert_eq!(parse_i32(&cs(s)), i32::from_str_radix(s, 10).ok(), "i32 {:?}", s);
        assert_eq!(parse_i64(&cs(s)), i64::from_str_radix(s, 10).ok(), "i64 {:?}", s);
        assert_eq!(parse_u64(&cs(s)), u64::from_str_radix(s, 10).ok(), "u64 {:?}", s);
    }
}

#[test]
fn number_round_trip_on_values() {
    for n in [0u64, 1, 9, 10, 99, 12345, u64::MAX] {
        assert_eq!(parse_u64(&cs(&n.to_string())), Some(n));
    }
}

#[test]
fn tokens_match_split_whitespace() {
    for s in ["", " ", "a", " a  b\tc\n", "x\u{a0}y\u{2003}z", "a\u{200B}b", "  lead", "trail  "] {
        let got = strs(&tokenize(&cs(s), Separator::Whitespace));
        let want: Vec<String> = s.split_whitespace().map(|t| t.to_string()).collect();
        assert_eq!(got, want, "{:?}", s);
    }
    let got = strs(&tokenize(&cs(",a,,b,"), Separator::Char(',')));
    assert_eq!(got, vec!["a", "b"]);
}

#[test]
fn lines_match_bufread_lines() {
    for s in ["", "\n", "a", "a\n", "a\nb", "a\r\nb\r\n", "a\r", "\n\nx\n", "a\rb\n"] {
        let got = strs(&lines_of(&cs(s)));
        let want: Vec<String> = s.as_bytes().lines().map(|l| l.unwrap()).collect();
        assert_eq!(got, want, "{:?}", s);
    }
}

#[test]
fn text_helpers() {
    assert_eq!(chars_of("héllo"), cs("héllo"));
    assert_eq!(string_from_chars(&cs("héllo")), "héllo");
}

#[test]
fn vmstat_errors_name_the_first_bad_line() {
    assert_eq!(VmStat::from_text("a 1\nb\nc x\n").unwrap_err(), InternalError::MissingField { line: 1 });
    assert_eq!(VmStat::from_text("a 1\nc x\nb\n").unwrap_err(), InternalError::InvalidNumber { line: 1 });
    assert_eq!(VmStat::from_text("\n").unwrap_err(), InternalError::MissingField { line: 0 });
    assert_eq!(VmStat::from_text("a 9223372036854775808").unwrap_err(), InternalError::InvalidNumber { line: 0 });
    let s = VmStat::from_text("a -5 extra\nb +7").unwrap();
    assert_eq!(s.0, vec![("a".to_string(), -5), ("b".to_string(), 7)]);
    assert!(VmStat::from_text("").unwrap().0.is_empty());
    let s = VmStat::from_text("a 1\nb 2\na 3\n").unwrap();
    assert_eq!(s.0, vec![("a".to_string(), 3), ("b".to_string(), 2)]);
}

#[test]
fn modules_errors() {
    assert_eq!(KernelModules::from_text("m").unwrap_err(), InternalError::MissingField { line: 0 });
    assert_eq!(KernelModules::from_text("m x").unwrap_err(), InternalError::InvalidNumber { line: 0 });
    assert_eq!(KernelModules::from_text("m 1").unwrap_err(), InternalError::MissingField { line: 0 });
    assert_eq!(KernelModules::from_text("m 1 -1 -").unwrap_err(), InternalError::MissingField { line: 0 });
    assert_eq!(KernelModules::from_text("m 1 y - Live").unwrap_err(), InternalError::InvalidNumber { line: 0 });
    assert_eq!(KernelModules::from_text("m -1 0 - Live").unwrap_err(), InternalError::InvalidNumber { line: 0 });
    let KernelModules(m) = KernelModules::from_text("ok 1 0 - Live\nm 1 -1 - Unloading").unwrap();
    assert_eq!(m[1].1.refcount, -1);
    assert_eq!(m[1].1.state, "Unloading");
    let KernelModules(m) = KernelModules::from_text("a 1 0 - Live\nb 2 0 - Live\na 3 1 b Loading").unwrap();
    assert_eq!(m.len(), 2);
    assert_eq!(m[0].0, "a");
    assert_eq!(m[0].1.size, 3);
    assert_eq!(m[0].1.used_by, vec!["b".to_string()]);
}

#[test]
fn kernel_config_lines() {
    let KernelConfig(c) = KernelConfig::from_text(CONFIG);
    println!("{:#?}", c);
    assert_eq!(c.len(), 5);
    assert_eq!(c[0].0, "CONFIG_CC_VERSION_TEXT");
    assert!(matches!(&c[0].1, ConfigSetting::Value(v) if v == "\"gcc (GCC) 13.2.0\""));
    assert_eq!(c[1].0, "CONFIG_64BIT");
    assert!(matches!(c[1].1, ConfigSetting::Yes));
    assert!(matches!(c[2].1, ConfigSetting::Module));
    assert!(matches!(&c[3].1, ConfigSetting::Value(v) if v == "250"));
    assert_eq!(c[4].0, "CONFIG_CMDLINE");
    assert!(matches!(&c[4].1, ConfigSetting::Value(v) if v == "\"a=b\""));
    let KernelConfig(c) = KernelConfig::from_text("A=\nB==y\nno equals sign\n#C=y\nA=m");
    assert_eq!(c.len(), 2);
    assert_eq!(c[0].0, "A");
    assert!(matches!(c[0].1, ConfigSetting::Module));
    let KernelConfig(c) = KernelConfig::from_text("A=\nB==y");
    assert!(matches!(&c[0].1, ConfigSetting::Value(v) if v.is_empty()));
    assert!(matches!(&c[1].1, ConfigSetting::Value(v) if v == "=y"));
}

#[test]
fn test_kernel_stat() {
    let stat = KernelStats::from_text(STAT, 100).unwrap();
    println!("{:#?}", stat);
    assert_eq!(stat.btime, 1794955444);
    assert_eq!(stat.ctxt, 3449011);
    assert_eq!(stat.processes, 4313);
    assert_eq!(stat.total.user, 8770);
    assert_eq!(stat.total.idle, 195736);
    assert_eq!(stat.total.iowait, Some(218));
    assert_eq!(stat.total.guest_nice, Some(0));
    assert_eq!(stat.total.tps, 100);
    assert_eq!(stat.cpu_time.len(), 1);
    assert_eq!(stat.cpu_time[0].user, 1980);
    assert_eq!(stat.procs_running, None);
    assert_eq!(stat.procs_blocked, None);
}

#[test]
fn kernel_stat_lines() {
    let base = "cpu 1 2 3 4\nctxt 5\nprocesses 6\n";
    assert_eq!(KernelStats::from_text(base, 100).unwrap_err(), InternalError::MissingEntry);
    let s = KernelStats::from_text(&format!("{}btime 4\nbtime 5\nprocs_running 2\nprocs_blocked 0\n", base), 100).unwrap();
    assert_eq!(s.btime, 5);
    assert_eq!(s.total.iowait, None);
    assert_eq!(s.procs_running, Some(2));
    assert_eq!(s.procs_blocked, Some(0));
    assert_eq!(KernelStats::from_text("btime 5", 100).unwrap_err(), InternalError::MissingEntry);
    assert_eq!(KernelStats::from_text("btime x\nbtime 5\n", 100).unwrap_err(), InternalError::InvalidNumber { line: 0 });
    assert_eq!(KernelStats::from_text("cpu 1 2 3\n", 100).unwrap_err(), InternalError::MissingField { line: 0 });
    assert_eq!(KernelStats::from_text("ctxt 1\ncpu0 1 2 x 4\n", 100).unwrap_err(), InternalError::InvalidNumber { line: 1 });
    assert_eq!(KernelStats::from_text("cpu 1 2 3 4 5 y\n", 100).unwrap_err(), InternalError::InvalidNumber { line: 0 });
    assert_eq!(KernelStats::from_text(&format!("{}btime 5 \n", base), 100).unwrap_err(), InternalError::InvalidNumber { line: 3 });
    assert_eq!(KernelStats::from_text(&format!("{}btime 5\nprocesses 4294967296\n", base), 100).unwrap_err(), InternalError::InvalidNumber { line: 4 });
}

#[test]
fn kernel_config_sources() {
    assert_eq!(first_config_source(true), ConfigSource::ProcGz);
    assert_eq!(first_config_source(false), ConfigSource::BootRelease);
    assert_eq!(next_config_source(ConfigSource::BootRelease, true), Some(ConfigSource::Boot));
    assert_eq!(next_config_source(ConfigSource::BootRelease, false), None);
    assert_eq!(next_config_source(ConfigSource::ProcGz, true), None);
    assert_eq!(next_config_source(ConfigSource::Boot, true), None);
}

#[test]
fn boot_time_is_read_once() {
    let mut c = BootTimeCache::new();
    assert!(matches!(c.next_step(), BootTimeStep::Read));
    assert_eq!(c.record(100), 100);
    assert!(matches!(c.next_step(), BootTimeStep::Known(100)));
    assert_eq!(c.record(200), 100);
    assert!(matches!(c.next_step(), BootTimeStep::Known(100)));
}

fn gzip(data: &[u8]) -> Vec<u8> {
    let mut e = flate2::write::GzEncoder::new(Vec::new(), flate2::Compression::default());
    e.write_all(data).unwrap();
    e.finish().unwrap()
}

#[test]
fn kernel_config_from_gzip() {
    let KernelConfig(c) = KernelConfig::from_gzip(&gzip(CONFIG.as_bytes())).unwrap();
    assert_eq!(c.len(), 5);
    assert_eq!(c[1].0, "CONFIG_64BIT");
    assert!(matches!(c[1].1, ConfigSetting::Yes));
    assert_eq!(KernelConfig::from_gzip(CONFIG.as_bytes()).unwrap_err(), ConfigError::Corrupt);
    assert_eq!(KernelConfig::from_gzip(&gzip(&[0x41, 0xff, 0x3d])).unwrap_err(), ConfigError::NotUtf8);
    assert_eq!(KernelConfig::from_decompressed(vec![0xc3, 0x28]).unwrap_err(), ConfigError::NotUtf8);
    let KernelConfig(c) = KernelConfig::from_decompressed("X=\u{e9}".as_bytes().to_vec()).unwrap();
    assert!(matches!(&c[0].1, ConfigSetting::Value(v) if v == "\u{e9}"));
}

