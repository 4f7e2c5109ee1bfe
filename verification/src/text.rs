//! Verified helpers on strings: decimal rendering, string-literal unescaping,
//! debug-style quoting, and the two template passes (placeholder extraction
//! and positional-to-named rewriting).

use vstd::prelude::*;

verus! {

/// Whether two string slices hold the same characters.
pub fn str_eq(a: &str, b: &str) -> (r: bool)
    ensures
        r == (a@ == b@),
{
    let na = a.unicode_len();
    let nb = b.unicode_len();
    if na != nb {
        return false;
    }
    let mut i: usize = 0;
    while i < na
        invariant
            na == a@.len(),
            nb == b@.len(),
            na == nb,
            i <= na,
            forall|j: int| 0 <= j < i ==> a@[j] == b@[j],
        decreases na - i,
    {
        if a.get_char(i) != b.get_char(i) {
            return false;
        }
        i = i + 1;
    }
    proof {
        assert(a@ =~= b@);
    }
    true
}

/// Append the characters of `s` to `out`.
pub fn push_str_chars(s: &str, out: &mut Vec<char>)
    ensures
        final(out)@ == old(out)@ + s@,
{
    let n = s.unicode_len();
    let mut i: usize = 0;
    while i < n
        invariant
            n == s@.len(),
            i <= n,
            out@ == old(out)@ + s@.subrange(0, i as int),
        decreases n - i,
    {
        out.push(s.get_char(i));
        proof {
            assert(out@ =~= old(out)@ + s@.subrange(0, i as int + 1));
        }
        i = i + 1;
    }
    proof {
        assert(out@ =~= old(out)@ + s@);
    }
}

/// Append the characters of `src` to `out`.
pub fn push_chars(src: &Vec<char>, out: &mut Vec<char>)
    ensures
        final(out)@ == old(out)@ + src@,
{
    let n = src.len();
    let mut i: usize = 0;
    while i < n
        invariant
            n == src@.len(),
            i <= n,
            out@ == old(out)@ + src@.subrange(0, i as int),
        decreases n - i,
    {
        out.push(src[i]);
        proof {
            assert(out@ =~= old(out)@ + src@.subrange(0, i as int + 1));
        }
        i = i + 1;
    }
    proof {
        assert(out@ =~= old(out)@ + src@);
    }
}

/// Collects the characters of `v` into a `String`.
///
/// Relies on `String`'s `FromIterator<char>`: the collected string holds
/// exactly the characters the iterator yields, in order.
#[verifier::external_body]
pub fn chars_to_string(v: &Vec<char>) -> (s: String)
    ensures
        s@ == v@,
{
    v.iter().collect()
}

/// The character of one decimal digit.
pub open spec fn dec_digit(d: nat) -> char {
    if d == 0 {
        '0'
    } else if d == 1 {
        '1'
    } else if d == 2 {
        '2'
    } else if d == 3 {
        '3'
    } else if d == 4 {
        '4'
    } else if d == 5 {
        '5'
    } else if d == 6 {
        '6'
    } else if d == 7 {
        '7'
    } else if d == 8 {
        '8'
    } else {
        '9'
    }
}

/// The decimal rendering of `n`, without sign or leading zeros.
pub open spec fn dec_str(n: nat) -> Seq<char>
    decreases n,
{
    if n < 10 {
        seq![dec_digit(n)]
    } else {
        dec_str(n / 10) + seq![dec_digit(n % 10)]
    }
}

fn dec_digit_char(d: usize) -> (c: char)
    requires
        d < 10,
    ensures
        c == dec_digit(d as nat),
{
    match d {
        0 => '0',
        1 => '1',
        2 => '2',
        3 => '3',
        4 => '4',
        5 => '5',
        6 => '6',
        7 => '7',
        8 => '8',
        _ => '9',
    }
}

fn push_dec(n: usize, out: &mut Vec<char>)
    ensures
        final(out)@ == old(out)@ + dec_str(n as nat),
    decreases n,
{
    if n >= 10 {
        push_dec(n / 10, out);
    }
    out.push(dec_digit_char(n % 10));
    proof {
        assert(out@ =~= old(out)@ + dec_str(n as nat));
    }
}

/// The decimal rendering of `n` as a `String`.
pub fn usize_to_string(n: usize) -> (s: String)
    ensures
        s@ == dec_str(n as nat),
{
    let mut v: Vec<char> = Vec::new();
    push_dec(n, &mut v);
    chars_to_string(&v)
}

pub proof fn lemma_dec_str_len(n: nat)
    ensures
        dec_str(n).len() >= 1,
        n >= 10 ==> dec_str(n).len() >= 2,
    decreases n,
{
    if n >= 10 {
        lemma_dec_str_len(n / 10);
    }
}

/// Two different numbers never share a decimal rendering.
pub proof fn lemma_dec_str_injective(a: nat, b: nat)
    requires
        dec_str(a) == dec_str(b),
    ensures
        a == b,
    decreases a,
{
    lemma_dec_str_len(a);
    lemma_dec_str_len(b);
    if a < 10 && b < 10 {
        assert(dec_str(a)[0] == dec_digit(a));
        assert(dec_str(b)[0] == dec_digit(b));
    } else if a < 10 {
        assert(dec_str(a).len() == 1);
    } else if b < 10 {
        assert(dec_str(b).len() == 1);
    } else {
        let pa = dec_str(a / 10);
        let pb = dec_str(b / 10);
        assert(dec_str(a) == pa + seq![dec_digit(a % 10)]);
        assert(dec_str(b) == pb + seq![dec_digit(b % 10)]);
        assert(pa.len() + 1 == pb.len() + 1);
        assert(dec_str(a)[pa.len() as int] == dec_digit(a % 10));
        assert(dec_str(b)[pb.len() as int] == dec_digit(b % 10));
        assert(dec_digit(a % 10) == dec_digit(b % 10));
        assert(a % 10 == b % 10);
        assert(pa =~= pb) by {
            assert(forall|q: int|
                0 <= q < pa.len() ==> pa[q] == dec_str(a)[q] && pb[q] == dec_str(b)[q]);
        }
        lemma_dec_str_injective(a / 10, b / 10);
    }
}

/// What one escape pair `\c` in a string literal stands for; an unknown
/// escape is kept as written.
pub open spec fn esc_pair(c: char) -> Seq<char> {
    if c == 'n' {
        seq!['\n']
    } else if c == 'r' {
        seq!['\r']
    } else if c == 't' {
        seq!['\t']
    } else if c == '"' || c == '\'' || c == '\\' {
        seq![c]
    } else {
        seq!['\\', c]
    }
}

/// The text of a string literal's body once escape pairs are resolved,
/// scanning left to right from position `i`.
pub open spec fn unescaped_from(s: Seq<char>, i: int) -> Seq<char>
    decreases s.len() - i,
{
    if i < 0 || i >= s.len() {
        Seq::empty()
    } else if s[i] == '\\' && i + 1 < s.len() {
        esc_pair(s[i + 1]) + unescaped_from(s, i + 2)
    } else {
        seq![s[i]] + unescaped_from(s, i + 1)
    }
}

fn push_unescaped(s: &str, i: usize, out: &mut Vec<char>)
    requires
        i <= s@.len(),
    ensures
        final(out)@ == old(out)@ + unescaped_from(s@, i as int),
    decreases s@.len() - i,
{
    let n = s.unicode_len();
    if i >= n {
        return ;
    }
    let c = s.get_char(i);
    if c == '\\' && i + 1 < n {
        let e = s.get_char(i + 1);
        if e == 'n' {
            out.push('\n');
        } else if e == 'r' {
            out.push('\r');
        } else if e == 't' {
            out.push('\t');
        } else if e == '"' || e == '\'' || e == '\\' {
            out.push(e);
        } else {
            out.push('\\');
            out.push(e);
        }
        push_unescaped(s, i + 2, out);
    } else {
        out.push(c);
        push_unescaped(s, i + 1, out);
    }
    proof {
        assert(out@ =~= old(out)@ + unescaped_from(s@, i as int));
    }
}

/// Resolve the escape pairs of a string literal's body.
pub fn unescape(s: &str) -> (r: String)
    ensures
        r@ == unescaped_from(s@, 0),
{
    let mut v: Vec<char> = Vec::new();
    push_unescaped(s, 0, &mut v);
    chars_to_string(&v)
}

/// How one character is written inside a quoted template: quotes,
/// backslashes and the common control characters get an escape pair.
pub open spec fn quote_char(c: char) -> Seq<char> {
    if c == '"' {
        seq!['\\', '"']
    } else if c == '\\' {
        seq!['\\', '\\']
    } else if c == '\n' {
        seq!['\\', 'n']
    } else if c == '\r' {
        seq!['\\', 'r']
    } else if c == '\t' {
        seq!['\\', 't']
    } else {
        seq![c]
    }
}

pub open spec fn quote_body(s: Seq<char>, i: int) -> Seq<char>
    decreases s.len() - i,
{
    if i < 0 || i >= s.len() {
        Seq::empty()
    } else {
        quote_char(s[i]) + quote_body(s, i + 1)
    }
}

/// The template written as a quoted string literal: quotes around the
/// escaped body.
pub open spec fn quoted(s: Seq<char>) -> Seq<char> {
    seq!['"'] + quote_body(s, 0) + seq!['"']
}

fn push_quote_body(s: &str, i: usize, out: &mut Vec<char>)
    requires
        i <= s@.len(),
    ensures
        final(out)@ == old(out)@ + quote_body(s@, i as int),
    decreases s@.len() - i,
{
    let n = s.unicode_len();
    if i >= n {
        return ;
    }
    let c = s.get_char(i);
    if c == '"' {
        out.push('\\');
        out.push('"');
    } else if c == '\\' {
        out.push('\\');
        out.push('\\');
    } else if c == '\n' {
        out.push('\\');
        out.push('n');
    } else if c == '\r' {
        out.push('\\');
        out.push('r');
    } else if c == '\t' {
        out.push('\\');
        out.push('t');
    } else {
        out.push(c);
    }
    push_quote_body(s, i + 1, out);
    proof {
        assert(out@ =~= old(out)@ + quote_body(s@, i as int));
    }
}

/// Write the template as a quoted string literal into `out`.
pub fn push_quoted(s: &str, out: &mut Vec<char>)
    ensures
        final(out)@ == old(out)@ + quoted(s@),
{
    out.push('"');
    push_quote_body(s, 0, out);
    out.push('"');
    proof {
        assert(out@ =~= old(out)@ + quoted(s@));
    }
}

/// Whether `c` is a decimal digit.
pub open spec fn is_digit(c: char) -> bool {
    48 <= c as u32 <= 57
}

/// The numeric value of a digit character.
pub open spec fn digit_val(c: char) -> nat {
    (c as u32 - 48) as nat
}

/// The first position at or after `i` whose character is not a digit.
pub open spec fn digit_run_end(s: Seq<char>, i: int) -> int
    decreases s.len() - i,
{
    if 0 <= i < s.len() && is_digit(s[i]) {
        digit_run_end(s, i + 1)
    } else {
        i
    }
}

/// The value of the digits `s[i..j)`.
pub open spec fn digits_val(s: Seq<char>, i: int, j: int) -> nat
    decreases j - i,
{
    if i >= j {
        0
    } else {
        digits_val(s, i, j - 1) * 10 + digit_val(s[j - 1])
    }
}

proof fn lemma_digits_val_mono(s: Seq<char>, i: int, j1: int, j2: int)
    requires
        i <= j1 <= j2,
    ensures
        digits_val(s, i, j2) >= digits_val(s, i, j1),
    decreases j2 - j1,
{
    if j1 < j2 {
        lemma_digits_val_mono(s, i, j1, j2 - 1);
        assert(digits_val(s, i, j2) == digits_val(s, i, j2 - 1) * 10 + digit_val(s[j2 - 1]));
        assert(digits_val(s, i, j2 - 1) * 10 >= digits_val(s, i, j2 - 1));
    }
}

/// Whether the template has, right after the brace at `i`, a canonical
/// decimal index below `n` followed by `}` or `:`.
pub open spec fn positional_at(s: Seq<char>, i: int, n: nat) -> bool {
    let j = digit_run_end(s, i + 1);
    &&& j > i + 1
    &&& j < s.len()
    &&& (s[j] == '}' || s[j] == ':')
    &&& (s[i + 1] != '0' || j == i + 2)
    &&& digits_val(s, i + 1, j) < n
}

/// The template with every positional placeholder `{i...}` (index below
/// `n`) rewritten to the named placeholder `{field_i...}`, scanning from
/// position `i`.
pub open spec fn rewritten_from(s: Seq<char>, i: int, n: nat) -> Seq<char>
    decreases s.len() - i,
{
    if i < 0 || i >= s.len() {
        Seq::empty()
    } else if s[i] == '{' && positional_at(s, i, n) {
        "{field_"@ + s.subrange(i + 1, digit_run_end(s, i + 1)) + rewritten_from(
            s,
            digit_run_end_capped(s, i + 1),
            n,
        )
    } else {
        seq![s[i]] + rewritten_from(s, i + 1, n)
    }
}

/// The end of the digit run, kept past `i` and within the text.
pub open spec fn digit_run_end_capped(s: Seq<char>, i: int) -> int {
    let e = if digit_run_end(s, i) < i + 1 {
        i + 1
    } else {
        digit_run_end(s, i)
    };
    if e > s.len() {
        s.len() as int
    } else {
        e
    }
}

proof fn lemma_digit_run_end_bounds(s: Seq<char>, i: int)
    requires
        0 <= i <= s.len(),
    ensures
        i <= digit_run_end(s, i) <= s.len(),
        i < s.len() ==> digit_run_end_capped(s, i) == if digit_run_end(s, i) > i {
            digit_run_end(s, i)
        } else {
            i + 1
        },
    decreases s.len() - i,
{
    if i < s.len() && is_digit(s[i]) {
        lemma_digit_run_end_bounds(s, i + 1);
    }
}

fn find_digit_run_end(s: &str, i: usize) -> (j: usize)
    requires
        i <= s@.len(),
    ensures
        j == digit_run_end(s@, i as int),
        i <= j <= s@.len(),
    decreases s@.len() - i,
{
    proof {
        lemma_digit_run_end_bounds(s@, i as int);
    }
    let n = s.unicode_len();
    if i < n {
        let c = s.get_char(i);
        let cu = c as u32;
        if 48 <= cu && cu <= 57 {
            return find_digit_run_end(s, i + 1);
        }
    }
    i
}

/// The value of the digits `s[i..j)` if it stays below `n`; `None` says it
/// is at least `n`.
fn digits_val_below(s: &str, i: usize, j: usize, n: usize) -> (r: Option<usize>)
    requires
        i <= j <= s@.len(),
        forall|k: int| i <= k < j ==> is_digit(s@[k]),
    ensures
        match r {
            Some(v) => v == digits_val(s@, i as int, j as int) && v < n,
            None => digits_val(s@, i as int, j as int) >= n,
        },
{
    let mut acc: usize = 0;
    let mut k = i;
    while k < j
        invariant
            i <= k <= j <= s@.len(),
            forall|m: int| i <= m < j ==> is_digit(s@[m]),
            acc == digits_val(s@, i as int, k as int),
        decreases j - k,
    {
        let c = s.get_char(k);
        let d = (c as u32 - 48) as usize;
        if acc > usize::MAX / 10 || acc * 10 > usize::MAX - d {
            proof {
                assert(digits_val(s@, i as int, k as int + 1) == acc * 10 + digit_val(
                    s@[k as int],
                ));
                lemma_digits_val_mono(s@, i as int, k as int + 1, j as int);
            }
            return None;
        }
        acc = acc * 10 + d;
        k = k + 1;
    }
    if acc < n {
        Some(acc)
    } else {
        None
    }
}

fn push_rewritten(s: &str, i: usize, n: usize, out: &mut Vec<char>)
    requires
        i <= s@.len(),
    ensures
        final(out)@ == old(out)@ + rewritten_from(s@, i as int, n as nat),
    decreases s@.len() - i,
{
    let len = s.unicode_len();
    if i >= len {
        return ;
    }
    let c = s.get_char(i);
    if c == '{' {
        let j = find_digit_run_end(s, i + 1);
        let mut positional = false;
        if j > i + 1 && j < len {
            let t = s.get_char(j);
            if t == '}' || t == ':' {
                let first = s.get_char(i + 1);
                if first != '0' || j == i + 2 {
                    proof {
                        lemma_digit_run_is_digits(s@, i as int + 1, j as int);
                    }
                    if let Some(_v) = digits_val_below(s, i + 1, j, n) {
                        positional = true;
                    }
                }
            }
        }
        if positional {
            proof {
                assert(positional_at(s@, i as int, n as nat));
                reveal_strlit("{field_");
            }
            out.push('{');
            out.push('f');
            out.push('i');
            out.push('e');
            out.push('l');
            out.push('d');
            out.push('_');
            let mut k = i + 1;
            while k < j
                invariant
                    i + 1 <= k <= j <= s@.len(),
                    out@ == old(out)@ + "{field_"@ + s@.subrange(i as int + 1, k as int),
                decreases j - k,
            {
                out.push(s.get_char(k));
                proof {
                    assert(out@ =~= old(out)@ + "{field_"@ + s@.subrange(
                        i as int + 1,
                        k as int + 1,
                    ));
                }
                k = k + 1;
            }
            push_rewritten(s, j, n, out);
            proof {
                lemma_digit_run_end_bounds(s@, i as int + 1);
                assert(digit_run_end_capped(s@, i as int + 1) == j);
                assert(out@ =~= old(out)@ + rewritten_from(s@, i as int, n as nat));
            }
        } else {
            proof {
                assert(!positional_at(s@, i as int, n as nat));
            }
            out.push('{');
            push_rewritten(s, i + 1, n, out);
            proof {
                assert(out@ =~= old(out)@ + rewritten_from(s@, i as int, n as nat));
            }
        }
    } else {
        out.push(c);
        push_rewritten(s, i + 1, n, out);
        proof {
            assert(out@ =~= old(out)@ + rewritten_from(s@, i as int, n as nat));
        }
    }
}

proof fn lemma_digit_run_is_digits(s: Seq<char>, i: int, j: int)
    requires
        0 <= i <= s.len(),
        j == digit_run_end(s, i),
    ensures
        forall|k: int| i <= k < j ==> is_digit(s[k]),
    decreases s.len() - i,
{
    if i < s.len() && is_digit(s[i]) {
        lemma_digit_run_is_digits(s, i + 1, j);
    }
}

/// The template with positional placeholders below `n` rewritten to
/// `field_i` form.
pub fn rewrite_positional(s: &str, n: usize) -> (r: String)
    ensures
        r@ == rewritten_from(s@, 0, n as nat),
{
    let mut v: Vec<char> = Vec::new();
    push_rewritten(s, 0, n, &mut v);
    chars_to_string(&v)
}

/// Whether `c` ends a placeholder name.
pub open spec fn is_stop(c: char) -> bool {
    c == '{' || c == '}' || c == ':'
}

/// The first position at or after `i` holding `{`, `}` or `:`; the length
/// if there is none.
pub open spec fn find_stop(s: Seq<char>, i: int) -> int
    decreases s.len() - i,
{
    if 0 <= i < s.len() && !is_stop(s[i]) {
        find_stop(s, i + 1)
    } else if i > s.len() {
        s.len() as int
    } else {
        i
    }
}

/// The placeholder names of the template, one for every `{`, in order:
/// the characters after the brace up to the next `{`, `}` or `:`.
pub open spec fn extracted_from(s: Seq<char>, i: int) -> Seq<Seq<char>>
    decreases s.len() - i,
{
    if i < 0 || i >= s.len() {
        Seq::empty()
    } else if s[i] == '{' {
        seq![s.subrange(i + 1, find_stop(s, i + 1))] + extracted_from(s, i + 1)
    } else {
        extracted_from(s, i + 1)
    }
}

proof fn lemma_find_stop_bounds(s: Seq<char>, i: int)
    requires
        0 <= i <= s.len(),
    ensures
        i <= find_stop(s, i) <= s.len(),
    decreases s.len() - i,
{
    if i < s.len() && !is_stop(s[i]) {
        lemma_find_stop_bounds(s, i + 1);
    }
}

fn find_stop_exec(s: &str, i: usize) -> (j: usize)
    requires
        i <= s@.len(),
    ensures
        j == find_stop(s@, i as int),
        i <= j <= s@.len(),
    decreases s@.len() - i,
{
    proof {
        lemma_find_stop_bounds(s@, i as int);
    }
    let n = s.unicode_len();
    if i < n {
        let c = s.get_char(i);
        if !(c == '{' || c == '}' || c == ':') {
            return find_stop_exec(s, i + 1);
        }
    }
    i
}

fn push_extracted(s: &str, i: usize, out: &mut Vec<String>)
    requires
        i <= s@.len(),
    ensures
        final(out)@.map_values(|t: String| t@) == old(out)@.map_values(|t: String| t@)
            + extracted_from(s@, i as int),
    decreases s@.len() - i,
{
    let n = s.unicode_len();
    if i >= n {
        proof {
            assert(out@.map_values(|t: String| t@) =~= old(out)@.map_values(|t: String| t@)
                + extracted_from(s@, i as int));
        }
        return ;
    }
    let c = s.get_char(i);
    if c == '{' {
        let ne = find_stop_exec(s, i + 1);
        let name = s.substring_char(i + 1, ne).to_owned();
        out.push(name);
        proof {
            assert(out@.map_values(|t: String| t@) =~= old(out)@.map_values(|t: String| t@)
                + seq![s@.subrange(i as int + 1, find_stop(s@, i as int + 1))]);
        }
    }
    push_extracted(s, i + 1, out);
    proof {
        assert(out@.map_values(|t: String| t@) =~= old(out)@.map_values(|t: String| t@)
            + extracted_from(s@, i as int));
    }
}

/// The placeholder names referenced by the template, in template order.
pub fn extract_placeholders(s: &str) -> (r: Vec<String>)
    ensures
        r@.map_values(|t: String| t@) == extracted_from(s@, 0),
{
    let mut v: Vec<String> = Vec::new();
    push_extracted(s, 0, &mut v);
    v
}

} // verus!
