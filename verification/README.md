# procfs

Kernel and process information from the Linux `/proc` pseudo-filesystem,
verified with Verus.

- `src/` is the verified library: the text formats of `/proc/vmstat`,
  `/proc/modules`, `/proc/cmdline`, `/proc/stat` and kernel configurations
  (plain or gzip-compressed, and where to look for them), the decimal numbers and
  size units they use, and the per-thread memory of the boot time. Each
  reader's contract states, over the characters of the text, what it returns
  and which line it rejects.
- `app/` reads the files, keeps the per-thread boot time, converts the
  library's lists into `HashMap`s, reads `/proc/loadavg` (floating point), and
  formats dates in the local time zone.
- `tests/` runs the readers on sample texts and compares the text helpers with
  the standard library's `split_whitespace`, `BufRead::lines` and
  `from_str_radix`.
