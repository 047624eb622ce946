//! `/proc/cmdline`: the arguments passed to the kernel at boot.

use vstd::prelude::*;
use crate::text::{chars_of, string_views, strings_from, tokenize, tokens, Separator};

verus! {

/// The arguments passed to the Linux kernel at boot time.
#[derive(Debug)]
pub struct KernelCmdline(pub Vec<String>);

/// The arguments of a `/proc/cmdline` text: its pieces between spaces, the
/// empty ones left out.
pub open spec fn cmdline_args(text: Seq<char>) -> Seq<Seq<char>> {
    tokens(text, Separator::Char(' '))
}

impl KernelCmdline {
    /// Reads the text of `/proc/cmdline`.
    pub fn from_text(text: &str) -> (r: KernelCmdline)
        ensures
            string_views(r.0@) == cmdline_args(text@),
    {
        let chars = chars_of(text);
        let args = tokenize(&chars, Separator::Char(' '));
        KernelCmdline(strings_from(&args))
    }
}

} // verus!
