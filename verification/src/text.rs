use vstd::prelude::*;
use vstd::std_specs::iter::IteratorSpec;

verus! {

broadcast use vstd::string::group_string_axioms;

/// The characters of a string slice, in order.
pub fn chars_of(s: &str) -> (v: Vec<char>)
    ensures
        v@ == s@,
{
    let mut v: Vec<char> = Vec::new();
    for c in it: s.chars()
        invariant
            v@ == it.seq().take(it.index() as int),
    {
        v.push(c);
    }
    v
}

/// Appends one character to a string (`String::push`).
#[verifier::external_body]
fn push_char(s: &mut String, c: char)
    ensures
        final(s)@ == old(s)@.push(c),
{
    s.push(c);
}

/// The string made of the given characters.
pub fn string_from_chars(v: &Vec<char>) -> (s: String)
    ensures
        s@ == v@,
{
    let mut s = String::new();
    let mut i: usize = 0;
    while i < v.len()
        invariant
            i <= v.len(),
            s@ == v@.take(i as int),
        decreases v.len() - i,
    {
        push_char(&mut s, v[i]);
        i = i + 1;
        assert(v@.take(i as int) =~= v@.take(i - 1 as int).push(v@[i - 1]));
    }
    assert(v@.take(i as int) =~= v@);
    s
}

/// The character sequences held by a vector of character vectors.
pub open spec fn seqs_of(v: Seq<Vec<char>>) -> Seq<Seq<char>> {
    v.map_values(|x: Vec<char>| x@)
}

/// The characters of each string of a list.
pub open spec fn string_views(v: Seq<String>) -> Seq<Seq<char>> {
    v.map_values(|x: String| x@)
}

/// The strings made of the given character vectors.
pub fn strings_from(v: &Vec<Vec<char>>) -> (r: Vec<String>)
    ensures
        string_views(r@) == seqs_of(v@),
{
    let mut r: Vec<String> = Vec::new();
    let mut i: usize = 0;
    while i < v.len()
        invariant
            i <= v.len(),
            string_views(r@) =~= seqs_of(v@).take(i as int),
        decreases v.len() - i,
    {
        let s = string_from_chars(&v[i]);
        let ghost before = r@;
        r.push(s);
        assert(string_views(r@) =~= string_views(before).push(s@));
        assert(seqs_of(v@).take(i + 1) =~= seqs_of(v@).take(i as int).push(v@[i as int]@));
        i = i + 1;
    }
    assert(seqs_of(v@).take(i as int) =~= seqs_of(v@));
    r
}

/// Whether two character sequences are equal.
pub fn chars_eq(a: &Vec<char>, b: &Vec<char>) -> (r: bool)
    ensures
        r == (a@ == b@),
{
    if a.len() != b.len() {
        return false;
    }
    let mut i: usize = 0;
    while i < a.len()
        invariant
            a.len() == b.len(),
            i <= a.len(),
            forall|j: int| 0 <= j < i ==> a@[j] == b@[j],
        decreases a.len() - i,
    {
        if a[i] != b[i] {
            return false;
        }
        i = i + 1;
    }
    assert(a@ =~= b@);
    true
}

/// `char::is_whitespace`: the characters with the Unicode `White_Space` property.
pub open spec fn is_unicode_whitespace(c: char) -> bool {
    let u = c as u32;
    ||| 0x09 <= u <= 0x0D
    ||| u == 0x20
    ||| u == 0x85
    ||| u == 0xA0
    ||| u == 0x1680
    ||| 0x2000 <= u <= 0x200A
    ||| u == 0x2028
    ||| u == 0x2029
    ||| u == 0x202F
    ||| u == 0x205F
    ||| u == 0x3000
}

/// Whether `c` is a whitespace character in the sense of `char::is_whitespace`.
pub fn is_whitespace(c: char) -> (r: bool)
    ensures
        r == is_unicode_whitespace(c),
{
    let u = c as u32;
    (0x09 <= u && u <= 0x0D) || u == 0x20 || u == 0x85 || u == 0xA0 || u == 0x1680 || (0x2000
        <= u && u <= 0x200A) || u == 0x2028 || u == 0x2029 || u == 0x202F || u == 0x205F || u
        == 0x3000
}

/// What separates the tokens of a text.
#[derive(Clone, Copy)]
pub enum Separator {
    /// Any run of whitespace, as `str::split_whitespace` splits.
    Whitespace,
    /// One given character; empty pieces are dropped.
    Char(char),
}

pub open spec fn is_separator(sep: Separator, c: char) -> bool {
    match sep {
        Separator::Whitespace => is_unicode_whitespace(c),
        Separator::Char(d) => c == d,
    }
}

fn separates(sep: Separator, c: char) -> (r: bool)
    ensures
        r == is_separator(sep, c),
{
    match sep {
        Separator::Whitespace => is_whitespace(c),
        Separator::Char(d) => c == d,
    }
}

/// The maximal runs of non-separator characters of `s`, in order: what
/// `split_whitespace()` gives, or `split(d)` with the empty pieces left out.
pub open spec fn tokens(s: Seq<char>, sep: Separator) -> Seq<Seq<char>>
    decreases s.len(),
{
    if s.len() == 0 {
        seq![]
    } else {
        let prev = tokens(s.drop_last(), sep);
        let c = s.last();
        if is_separator(sep, c) {
            prev
        } else if s.len() == 1 || is_separator(sep, s[s.len() - 2]) {
            prev.push(seq![c])
        } else {
            prev.update(prev.len() - 1, prev.last().push(c))
        }
    }
}

/// Splits `s` into its tokens.
pub fn tokenize(s: &Vec<char>, sep: Separator) -> (r: Vec<Vec<char>>)
    ensures
        seqs_of(r@) == tokens(s@, sep),
{
    let mut done: Vec<Vec<char>> = Vec::new();
    let mut cur: Vec<char> = Vec::new();
    let mut in_token = false;
    let mut i: usize = 0;
    while i < s.len()
        invariant
            i <= s.len(),
            in_token == (i > 0 && !is_separator(sep, s@[i - 1])),
            in_token ==> tokens(s@.take(i as int), sep) == seqs_of(done@).push(cur@),
            !in_token ==> tokens(s@.take(i as int), sep) == seqs_of(done@),
        decreases s.len() - i,
    {
        let c = s[i];
        let ghost pre = s@.take(i as int);
        assert(s@.take(i + 1) =~= pre.push(c));
        assert(s@.take(i + 1).drop_last() =~= pre);
        if separates(sep, c) {
            if in_token {
                let ghost d = seqs_of(done@);
                done.push(cur);
                assert(seqs_of(done@) =~= d.push(cur@));
                cur = Vec::new();
            }
            in_token = false;
        } else {
            if in_token {
                let ghost d = seqs_of(done@);
                let ghost old_cur = cur@;
                cur.push(c);
                assert(d.push(old_cur).update(d.len() as int, d.push(old_cur).last().push(c))
                    =~= d.push(cur@));
            } else {
                cur = Vec::new();
                cur.push(c);
                assert(cur@ =~= seq![c]);
                in_token = true;
            }
        }
        i = i + 1;
    }
    assert(s@.take(i as int) =~= s@);
    if in_token {
        let ghost d = seqs_of(done@);
        done.push(cur);
        assert(seqs_of(done@) =~= d.push(cur@));
    }
    done
}

/// The pieces of `s` between the occurrences of `d` (`str::split(d)`); there is
/// always one piece more than there are occurrences.
pub open spec fn split(s: Seq<char>, d: char) -> Seq<Seq<char>>
    decreases s.len(),
{
    if s.len() == 0 {
        seq![seq![]]
    } else {
        let p = split(s.drop_last(), d);
        if s.last() == d {
            p.push(seq![])
        } else {
            p.update(p.len() - 1, p.last().push(s.last()))
        }
    }
}

pub proof fn lemma_split_nonempty(s: Seq<char>, d: char)
    ensures
        split(s, d).len() >= 1,
    decreases s.len(),
{
    if s.len() > 0 {
        lemma_split_nonempty(s.drop_last(), d);
    }
}

/// Splits `s` at every occurrence of `d`.
pub fn split_at_char(s: &Vec<char>, d: char) -> (r: Vec<Vec<char>>)
    ensures
        seqs_of(r@) == split(s@, d),
{
    let mut done: Vec<Vec<char>> = Vec::new();
    let mut cur: Vec<char> = Vec::new();
    let mut i: usize = 0;
    assert(s@.take(0) =~= Seq::<char>::empty());
    assert(seqs_of(done@).push(cur@) =~= seq![Seq::<char>::empty()]);
    while i < s.len()
        invariant
            i <= s.len(),
            split(s@.take(i as int), d) == seqs_of(done@).push(cur@),
        decreases s.len() - i,
    {
        let c = s[i];
        let ghost pre = s@.take(i as int);
        assert(s@.take(i + 1) =~= pre.push(c));
        assert(s@.take(i + 1).drop_last() =~= pre);
        let ghost dv = seqs_of(done@);
        let ghost old_cur = cur@;
        if c == d {
            done.push(cur);
            cur = Vec::new();
            assert(seqs_of(done@) =~= dv.push(old_cur));
            assert(dv.push(old_cur).push(Seq::<char>::empty()) =~= seqs_of(done@).push(cur@));
        } else {
            cur.push(c);
            assert(dv.push(old_cur).update(dv.len() as int, dv.push(old_cur).last().push(c))
                =~= dv.push(cur@));
        }
        i = i + 1;
    }
    assert(s@.take(i as int) =~= s@);
    let ghost dv = seqs_of(done@);
    done.push(cur);
    assert(seqs_of(done@) =~= dv.push(cur@));
    done
}

/// A line without the carriage return that ended it.
pub open spec fn strip_cr(l: Seq<char>) -> Seq<char> {
    if l.len() > 0 && l.last() == '\r' {
        l.drop_last()
    } else {
        l
    }
}

/// The lines of a text as `BufRead::lines` yields them: split at `'\n'`, a
/// `'\r'` right before a `'\n'` removed, no empty last line after a final
/// `'\n'`.
pub open spec fn lines(s: Seq<char>) -> Seq<Seq<char>> {
    let p = split(s, '\n');
    let complete = p.drop_last().map_values(|l: Seq<char>| strip_cr(l));
    if p.last().len() == 0 {
        complete
    } else {
        complete.push(p.last())
    }
}

fn without_cr(l: Vec<char>) -> (r: Vec<char>)
    ensures
        r@ == strip_cr(l@),
{
    let ghost orig = l@;
    let mut l = l;
    let n = l.len();
    if n > 0 && l[n - 1] == '\r' {
        l.pop();
        assert(l@ =~= orig.drop_last());
    }
    l
}

/// Splits `s` into its lines.
pub fn lines_of(s: &Vec<char>) -> (r: Vec<Vec<char>>)
    ensures
        seqs_of(r@) == lines(s@),
{
    let pieces = split_at_char(s, '\n');
    proof {
        lemma_split_nonempty(s@, '\n');
    }
    let ghost p = seqs_of(pieces@);
    let n = pieces.len();
    let mut out: Vec<Vec<char>> = Vec::new();
    let mut i: usize = 0;
    while i + 1 < n
        invariant
            n == pieces.len(),
            n >= 1,
            p == seqs_of(pieces@),
            i + 1 <= n,
            seqs_of(out@) =~= p.take(i as int).map_values(|l: Seq<char>| strip_cr(l)),
        decreases n - i,
    {
        let piece = pieces[i].clone();
        let line = without_cr(piece);
        let ghost before = seqs_of(out@);
        out.push(line);
        assert(p.take(i + 1) =~= p.take(i as int).push(p[i as int]));
        assert(seqs_of(out@) =~= before.push(strip_cr(p[i as int])));
        i = i + 1;
    }
    assert(p.drop_last() =~= p.take(i as int));
    let last = pieces[n - 1].clone();
    if last.len() > 0 {
        let ghost before = seqs_of(out@);
        out.push(last);
        assert(seqs_of(out@) =~= before.push(p.last()));
    }
    out
}

/// Every token is non-empty and holds no separator character.
pub proof fn law_tokens_are_words(s: Seq<char>, sep: Separator)
    ensures
        forall|i: int|
            0 <= i < tokens(s, sep).len() ==> (#[trigger] tokens(s, sep)[i]).len() > 0 && forall|
                j: int,
            |
                0 <= j < tokens(s, sep)[i].len() ==> !is_separator(
                    sep,
                    #[trigger] tokens(s, sep)[i][j],
                ),
        s.len() > 0 && !is_separator(sep, s.last()) ==> tokens(s, sep).len() > 0,
    decreases s.len(),
{
    if s.len() > 0 {
        let prev_s = s.drop_last();
        law_tokens_are_words(prev_s, sep);
        let prev = tokens(prev_s, sep);
        let t = tokens(s, sep);
        let c = s.last();
        if is_separator(sep, c) {
        } else if s.len() == 1 || is_separator(sep, s[s.len() - 2]) {
            assert forall|i: int| 0 <= i < t.len() implies (#[trigger] t[i]).len() > 0 && forall|
                j: int,
            |
                0 <= j < t[i].len() ==> !is_separator(sep, #[trigger] t[i][j]) by {
                if i < prev.len() {
                    assert(t[i] == prev[i]);
                }
            }
        } else {
            assert(prev_s.last() == s[s.len() - 2]);
            assert(prev.len() > 0);
            assert forall|i: int| 0 <= i < t.len() implies (#[trigger] t[i]).len() > 0 && forall|
                j: int,
            |
                0 <= j < t[i].len() ==> !is_separator(sep, #[trigger] t[i][j]) by {
                if i < prev.len() - 1 {
                    assert(t[i] == prev[i]);
                } else {
                    assert(t[i] == prev.last().push(c));
                    assert forall|j: int| 0 <= j < t[i].len() implies !is_separator(
                        sep,
                        #[trigger] t[i][j],
                    ) by {
                        if j < prev.last().len() {
                            assert(t[i][j] == prev[prev.len() - 1][j]);
                        }
                    }
                }
            }
        }
    }
}

/// No piece of a split holds the character it was split at.
pub proof fn lemma_split_pieces(s: Seq<char>, d: char)
    ensures
        forall|i: int, j: int|
            0 <= i < split(s, d).len() && 0 <= j < split(s, d)[i].len() ==> #[trigger] split(
                s,
                d,
            )[i][j] != d,
        split(s, d).len() >= 1,
    decreases s.len(),
{
    if s.len() > 0 {
        let prev = split(s.drop_last(), d);
        lemma_split_pieces(s.drop_last(), d);
        let p = split(s, d);
        if s.last() == d {
            assert forall|i: int, j: int|
                0 <= i < p.len() && 0 <= j < p[i].len() implies #[trigger] p[i][j] != d by {
                if i < prev.len() {
                    assert(p[i] == prev[i]);
                }
            }
        } else {
            assert forall|i: int, j: int|
                0 <= i < p.len() && 0 <= j < p[i].len() implies #[trigger] p[i][j] != d by {
                if i < prev.len() - 1 {
                    assert(p[i] == prev[i]);
                } else {
                    assert(p[i] == prev.last().push(s.last()));
                    if j < prev.last().len() {
                        assert(p[i][j] == prev[prev.len() - 1][j]);
                    }
                }
            }
        }
    }
}

/// No line holds a newline.
pub proof fn law_lines_have_no_newline(s: Seq<char>)
    ensures
        forall|i: int, j: int|
            0 <= i < lines(s).len() && 0 <= j < lines(s)[i].len() ==> #[trigger] lines(s)[i][j]
                != '\n',
{
    lemma_split_pieces(s, '\n');
    let p = split(s, '\n');
    let ls = lines(s);
    assert forall|i: int, j: int| 0 <= i < ls.len() && 0 <= j < ls[i].len() implies #[trigger] ls[
        i][j] != '\n' by {
        if i < p.len() - 1 {
            assert(ls[i] == strip_cr(p[i]));
            assert(ls[i][j] == p[i][j]);
        } else {
            assert(ls[i] == p.last());
            assert(ls[i][j] == p[p.len() - 1][j]);
        }
    }
}

proof fn lemma_tokens_keep_text(s: Seq<char>, sep: Separator)
    ensures
        tokens(s, sep).flatten_alt() == s.filter(|c: char| !is_separator(sep, c)),
    decreases s.len(),
{
    let keep = |c: char| !is_separator(sep, c);
    if s.len() == 0 {
        assert(s.filter(keep) =~= Seq::<char>::empty()) by {
            reveal(Seq::filter);
        }
    } else {
        let prev_s = s.drop_last();
        let c = s.last();
        lemma_tokens_keep_text(prev_s, sep);
        law_tokens_are_words(prev_s, sep);
        assert(prev_s.push(c) =~= s);
        prev_s.lemma_filter_push(c, keep);
        let prev = tokens(prev_s, sep);
        let t = tokens(s, sep);
        if is_separator(sep, c) {
        } else if s.len() == 1 || is_separator(sep, s[s.len() - 2]) {
            assert(t.drop_last() =~= prev);
            assert(t.flatten_alt() =~= prev.flatten_alt() + seq![c]);
        } else {
            assert(prev_s.last() == s[s.len() - 2]);
            let last = prev.last();
            assert(t.drop_last() =~= prev.drop_last());
            assert(prev.flatten_alt() == prev.drop_last().flatten_alt() + last);
            assert(t.flatten_alt() == prev.drop_last().flatten_alt() + last.push(c));
            assert(prev.drop_last().flatten_alt() + last.push(c) =~= (prev.drop_last().flatten_alt()
                + last).push(c));
        }
    }
}

/// Tokenizing loses no character but the separators: the tokens, put end to
/// end, are the text with its separator characters removed.
pub proof fn law_tokens_keep_text(s: Seq<char>, sep: Separator)
    ensures
        tokens(s, sep).flatten() == s.filter(|c: char| !is_separator(sep, c)),
{
    lemma_tokens_keep_text(s, sep);
    tokens(s, sep).lemma_flatten_and_flatten_alt_are_equivalent();
}

} // verus!
