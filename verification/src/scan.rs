//! Character-level scanning helpers for the configuration grammar:
//! trimming, searching, splitting, and parsing of numbers and booleans.

use vstd::prelude::*;

verus! {

// ---------------------------------------------------------------------------
// character classes
// ---------------------------------------------------------------------------

/// Blank characters that may surround keys and values in a configuration line.
pub open spec fn is_space(c: char) -> bool {
    c == ' ' || c == '\t' || c == '\r' || c == '\n'
}

fn space(c: char) -> (r: bool)
    ensures
        r == is_space(c),
{
    c == ' ' || c == '\t' || c == '\r' || c == '\n'
}

pub open spec fn is_digit(c: char) -> bool {
    48 <= c as u32 && c as u32 <= 57
}

pub open spec fn digit_val(c: char) -> int {
    c as u32 - 48
}

pub fn digit(c: char) -> (r: Option<u8>)
    ensures
        match r {
            Some(v) => is_digit(c) && v as int == digit_val(c),
            None => !is_digit(c),
        },
{
    let u = c as u32;
    if 48 <= u && u <= 57 {
        Some((u - 48) as u8)
    } else {
        None
    }
}

// ---------------------------------------------------------------------------
// trimming
// ---------------------------------------------------------------------------

/// Number of leading blank characters.
pub open spec fn start_trim(s: Seq<char>) -> int
    decreases s.len(),
{
    if s.len() > 0 && is_space(s[0]) {
        1 + start_trim(s.drop_first())
    } else {
        0
    }
}

/// Length of the prefix that remains once trailing blanks are dropped.
pub open spec fn end_trim(s: Seq<char>) -> int
    decreases s.len(),
{
    if s.len() > 0 && is_space(s[s.len() - 1]) {
        end_trim(s.drop_last())
    } else {
        s.len() as int
    }
}

/// The line with surrounding blanks removed.
pub open spec fn trim_spec(s: Seq<char>) -> Seq<char> {
    let a = start_trim(s);
    if 0 <= a <= s.len() {
        let t = s.subrange(a, s.len() as int);
        let b = end_trim(t);
        if 0 <= b <= t.len() {
            t.subrange(0, b)
        } else {
            t
        }
    } else {
        s
    }
}

pub proof fn lemma_start_trim(s: Seq<char>, i: int)
    requires
        0 <= i <= s.len(),
        forall|k: int| 0 <= k < i ==> is_space(s[k]),
        i < s.len() ==> !is_space(s[i]),
    ensures
        start_trim(s) == i,
    decreases i,
{
    if i == 0 {
    } else {
        assert(is_space(s[0]));
        assert forall|k: int| 0 <= k < i - 1 implies is_space(s.drop_first()[k]) by {
            assert(s.drop_first()[k] == s[k + 1]);
        }
        lemma_start_trim(s.drop_first(), i - 1);
    }
}

pub proof fn lemma_end_trim(s: Seq<char>, j: int)
    requires
        0 <= j <= s.len(),
        forall|k: int| j <= k < s.len() ==> is_space(s[k]),
        j > 0 ==> !is_space(s[j - 1]),
    ensures
        end_trim(s) == j,
    decreases s.len(),
{
    if j == s.len() {
        if s.len() > 0 && is_space(s[s.len() - 1]) {
            assert(false);
        }
    } else {
        assert(is_space(s[s.len() - 1]));
        assert forall|k: int| j <= k < s.drop_last().len() implies is_space(s.drop_last()[k]) by {
            assert(s.drop_last()[k] == s[k]);
        }
        lemma_end_trim(s.drop_last(), j);
    }
}

/// Removes surrounding blanks.
pub fn trim<'a>(s: &'a str) -> (r: &'a str)
    ensures
        r@ == trim_spec(s@),
{
    let n = s.unicode_len();
    let mut i: usize = 0;
    while i < n && space(s.get_char(i))
        invariant
            0 <= i <= n,
            n == s@.len(),
            forall|k: int| 0 <= k < i ==> is_space(s@[k]),
        decreases n - i,
    {
        i = i + 1;
    }
    let mut j: usize = n;
    while j > i && space(s.get_char(j - 1))
        invariant
            i <= j <= n,
            n == s@.len(),
            forall|k: int| j <= k < n ==> is_space(s@[k]),
        decreases j,
    {
        j = j - 1;
    }
    proof {
        lemma_start_trim(s@, i as int);
        let t = s@.subrange(i as int, n as int);
        assert forall|k: int| (j - i) <= k < t.len() implies is_space(t[k]) by {
            assert(t[k] == s@[k + i]);
        }
        lemma_end_trim(t, j - i);
        assert(trim_spec(s@) =~= s@.subrange(i as int, j as int));
    }
    s.substring_char(i, j)
}

// ---------------------------------------------------------------------------
// stripping decoration characters
// ---------------------------------------------------------------------------

/// Number of leading occurrences of `c`.
pub open spec fn lead_count(s: Seq<char>, c: char) -> int
    decreases s.len(),
{
    if s.len() > 0 && s[0] == c {
        1 + lead_count(s.drop_first(), c)
    } else {
        0
    }
}

/// Number of trailing occurrences of `c`.
pub open spec fn trail_count(s: Seq<char>, c: char) -> int
    decreases s.len(),
{
    if s.len() > 0 && s[s.len() - 1] == c {
        1 + trail_count(s.drop_last(), c)
    } else {
        0
    }
}

/// The text with every leading occurrence of `c` removed.
pub open spec fn strip_leading_spec(s: Seq<char>, c: char) -> Seq<char> {
    let a = lead_count(s, c);
    if 0 <= a <= s.len() {
        s.subrange(a, s.len() as int)
    } else {
        s
    }
}

/// The text with every occurrence of `c` removed from both ends.
pub open spec fn trim_char_spec(s: Seq<char>, c: char) -> Seq<char> {
    let a = lead_count(s, c);
    if 0 <= a <= s.len() {
        let t = s.subrange(a, s.len() as int);
        let b = trail_count(t, c);
        if 0 <= b <= t.len() {
            t.subrange(0, t.len() - b)
        } else {
            t
        }
    } else {
        s
    }
}

pub proof fn lemma_lead_count(s: Seq<char>, c: char, i: int)
    requires
        0 <= i <= s.len(),
        forall|k: int| 0 <= k < i ==> s[k] == c,
        i < s.len() ==> s[i] != c,
    ensures
        lead_count(s, c) == i,
    decreases i,
{
    if i == 0 {
    } else {
        assert(s[0] == c);
        assert forall|k: int| 0 <= k < i - 1 implies s.drop_first()[k] == c by {
            assert(s.drop_first()[k] == s[k + 1]);
        }
        lemma_lead_count(s.drop_first(), c, i - 1);
    }
}

pub proof fn lemma_trail_count(s: Seq<char>, c: char, j: int)
    requires
        0 <= j <= s.len(),
        forall|k: int| j <= k < s.len() ==> s[k] == c,
        j > 0 ==> s[j - 1] != c,
    ensures
        trail_count(s, c) == s.len() - j,
    decreases s.len(),
{
    if j == s.len() {
        if s.len() > 0 && s[s.len() - 1] == c {
            assert(false);
        }
    } else {
        assert(s[s.len() - 1] == c);
        assert forall|k: int| j <= k < s.drop_last().len() implies s.drop_last()[k] == c by {
            assert(s.drop_last()[k] == s[k]);
        }
        lemma_trail_count(s.drop_last(), c, j);
    }
}

/// Removes every leading occurrence of `c`.
pub fn strip_leading<'a>(s: &'a str, c: char) -> (r: &'a str)
    ensures
        r@ == strip_leading_spec(s@, c),
{
    let n = s.unicode_len();
    let mut i: usize = 0;
    while i < n && s.get_char(i) == c
        invariant
            0 <= i <= n,
            n == s@.len(),
            forall|k: int| 0 <= k < i ==> s@[k] == c,
        decreases n - i,
    {
        i = i + 1;
    }
    proof {
        lemma_lead_count(s@, c, i as int);
    }
    s.substring_char(i, n)
}

/// Removes every occurrence of `c` from both ends.
pub fn trim_char<'a>(s: &'a str, c: char) -> (r: &'a str)
    ensures
        r@ == trim_char_spec(s@, c),
{
    let n = s.unicode_len();
    let mut i: usize = 0;
    while i < n && s.get_char(i) == c
        invariant
            0 <= i <= n,
            n == s@.len(),
            forall|k: int| 0 <= k < i ==> s@[k] == c,
        decreases n - i,
    {
        i = i + 1;
    }
    let mut j: usize = n;
    while j > i && s.get_char(j - 1) == c
        invariant
            i <= j <= n,
            n == s@.len(),
            forall|k: int| j <= k < n ==> s@[k] == c,
        decreases j,
    {
        j = j - 1;
    }
    proof {
        lemma_lead_count(s@, c, i as int);
        let t = s@.subrange(i as int, n as int);
        assert forall|k: int| (j - i) <= k < t.len() implies t[k] == c by {
            assert(t[k] == s@[k + i]);
        }
        lemma_trail_count(t, c, j - i);
        assert(trim_char_spec(s@, c) =~= s@.subrange(i as int, j as int));
    }
    s.substring_char(i, j)
}

/// The text with at most one trailing quote character removed.
pub open spec fn strip_quote(s: Seq<char>) -> Seq<char> {
    if s.len() > 0 && s[s.len() - 1] == '\'' {
        s.drop_last()
    } else {
        s
    }
}

/// Removes a single trailing quote character, if present.
pub fn strip_one_quote<'a>(s: &'a str) -> (r: &'a str)
    ensures
        r@ == strip_quote(s@),
{
    let n = s.unicode_len();
    if n > 0 && s.get_char(n - 1) == '\'' {
        proof {
            assert(strip_quote(s@) =~= s@.subrange(0, n - 1));
        }
        s.substring_char(0, n - 1)
    } else {
        s
    }
}

// ---------------------------------------------------------------------------
// searching
// ---------------------------------------------------------------------------

/// Index of the first occurrence of `c`; the length when there is none.
pub open spec fn first_at(s: Seq<char>, c: char) -> int
    decreases s.len(),
{
    if s.len() == 0 {
        0
    } else if s[0] == c {
        0
    } else {
        1 + first_at(s.drop_first(), c)
    }
}

pub proof fn lemma_first_at_props(s: Seq<char>, c: char)
    ensures
        0 <= first_at(s, c) <= s.len(),
        first_at(s, c) < s.len() ==> s[first_at(s, c)] == c,
        forall|k: int| 0 <= k < first_at(s, c) ==> s[k] != c,
    decreases s.len(),
{
    if s.len() == 0 {
    } else if s[0] == c {
    } else {
        lemma_first_at_props(s.drop_first(), c);
        assert forall|k: int| 0 <= k < first_at(s, c) implies s[k] != c by {
            if k > 0 {
                assert(s.drop_first()[k - 1] == s[k]);
            }
        }
        if first_at(s, c) < s.len() {
            assert(s.drop_first()[first_at(s.drop_first(), c)] == s[first_at(s, c)]);
        }
    }
}

pub proof fn lemma_first_at_exact(s: Seq<char>, c: char, i: int)
    requires
        0 <= i <= s.len(),
        forall|k: int| 0 <= k < i ==> s[k] != c,
        i < s.len() ==> s[i] == c,
    ensures
        first_at(s, c) == i,
    decreases i,
{
    if i == 0 {
    } else {
        assert(s[0] != c);
        assert forall|k: int| 0 <= k < i - 1 implies s.drop_first()[k] != c by {
            assert(s.drop_first()[k] == s[k + 1]);
        }
        if i - 1 < s.drop_first().len() {
            assert(s.drop_first()[i - 1] == s[i]);
        }
        lemma_first_at_exact(s.drop_first(), c, i - 1);
    }
}

/// Index of the first occurrence of `c`; the character length when absent.
pub fn find_char(s: &str, c: char) -> (r: usize)
    ensures
        r as int == first_at(s@, c),
{
    let n = s.unicode_len();
    let mut i: usize = 0;
    while i < n && s.get_char(i) != c
        invariant
            0 <= i <= n,
            n == s@.len(),
            forall|k: int| 0 <= k < i ==> s@[k] != c,
        decreases n - i,
    {
        i = i + 1;
    }
    proof {
        lemma_first_at_exact(s@, c, i as int);
    }
    i
}

/// Position of the first block separator (a line break followed by `>`);
/// the length when there is none.
pub open spec fn first_sep(s: Seq<char>) -> int
    decreases s.len(),
{
    if s.len() < 2 {
        s.len() as int
    } else if s[0] == '\n' && s[1] == '>' {
        0
    } else {
        1 + first_sep(s.drop_first())
    }
}

pub open spec fn sep_free(s: Seq<char>) -> bool {
    first_sep(s) + 2 > s.len()
}

pub proof fn lemma_first_sep_props(s: Seq<char>)
    ensures
        0 <= first_sep(s) <= s.len(),
        first_sep(s) + 2 <= s.len() || first_sep(s) == s.len(),
        first_sep(s) + 2 <= s.len() ==> s[first_sep(s)] == '\n' && s[first_sep(s) + 1] == '>',
        forall|k: int|
            #![trigger s[k]]
            0 <= k < first_sep(s) && k + 2 <= s.len() ==> !(s[k] == '\n' && s[k + 1] == '>'),
    decreases s.len(),
{
    if s.len() < 2 {
    } else if s[0] == '\n' && s[1] == '>' {
    } else {
        lemma_first_sep_props(s.drop_first());
        assert forall|k: int|
            #![trigger s[k]]
            0 <= k < first_sep(s) && k + 2 <= s.len() implies !(s[k] == '\n' && s[k + 1] == '>') by {
            if k > 0 {
                assert(s.drop_first()[k - 1] == s[k]);
                assert(s.drop_first()[k] == s[k + 1]);
            }
        }
        if first_sep(s) + 2 <= s.len() {
            let f = first_sep(s.drop_first());
            assert(s.drop_first()[f] == s[f + 1]);
            assert(s.drop_first()[f + 1] == s[f + 2]);
        }
    }
}

pub proof fn lemma_first_sep_exact(s: Seq<char>, i: int)
    requires
        0 <= i,
        i + 2 <= s.len(),
        forall|k: int| #![trigger s[k]] 0 <= k < i ==> !(s[k] == '\n' && s[k + 1] == '>'),
        s[i] == '\n' && s[i + 1] == '>',
    ensures
        first_sep(s) == i,
    decreases i,
{
    if i == 0 {
    } else {
        assert(!(s[0] == '\n' && s[1] == '>'));
        assert forall|k: int| #![trigger s.drop_first()[k]] 0 <= k < i - 1 implies !(
        s.drop_first()[k] == '\n' && s.drop_first()[k + 1] == '>') by {
            assert(s.drop_first()[k] == s[k + 1]);
            assert(s.drop_first()[k + 1] == s[k + 2]);
        }
        assert(s.drop_first()[i - 1] == s[i]);
        assert(s.drop_first()[i] == s[i + 1]);
        lemma_first_sep_exact(s.drop_first(), i - 1);
    }
}

/// Position of the first block separator, or the length when absent.
pub fn find_sep(s: &str) -> (r: usize)
    ensures
        r as int == first_sep(s@),
{
    let n = s.unicode_len();
    if n < 2 {
        proof {
            lemma_first_sep_props(s@);
        }
        return n;
    }
    let mut i: usize = 0;
    while i <= n - 2 && !(s.get_char(i) == '\n' && s.get_char(i + 1) == '>')
        invariant
            0 <= i,
            i <= n - 1,
            2 <= n,
            n == s@.len(),
            forall|k: int| #![trigger s@[k]] 0 <= k < i ==> !(s@[k] == '\n' && s@[k + 1] == '>'),
        decreases n - i,
    {
        i = i + 1;
    }
    if i <= n - 2 {
        proof {
            lemma_first_sep_exact(s@, i as int);
        }
        i
    } else {
        proof {
            lemma_first_sep_props(s@);
        }
        n
    }
}

// ---------------------------------------------------------------------------
// splitting
// ---------------------------------------------------------------------------

/// The lines of `s`, split on every line break.
pub open spec fn split_lines(s: Seq<char>) -> Seq<Seq<char>>
    decreases s.len(),
{
    let i = first_at(s, '\n');
    if 0 <= i < s.len() {
        seq![s.subrange(0, i)] + split_lines(s.subrange(i + 1, s.len() as int))
    } else {
        seq![s]
    }
}

/// The sections of `s`, split on every block separator.
pub open spec fn split_sections(s: Seq<char>) -> Seq<Seq<char>>
    decreases s.len(),
{
    let i = first_sep(s);
    if 0 <= i && i + 2 <= s.len() {
        seq![s.subrange(0, i)] + split_sections(s.subrange(i + 2, s.len() as int))
    } else {
        seq![s]
    }
}

/// Splits into lines.
pub fn split_lines_vec(s: &str) -> (r: Vec<String>)
    ensures
        r.deep_view() == split_lines(s@),
{
    let mut out: Vec<String> = Vec::new();
    let mut rem: &str = s;
    let mut n = rem.unicode_len();
    let mut i = find_char(rem, '\n');
    proof {
        lemma_first_at_props(rem@, '\n');
        assert(out.deep_view() + split_lines(rem@) =~= split_lines(s@));
    }
    while i < n
        invariant
            n == rem@.len(),
            i as int == first_at(rem@, '\n'),
            i <= n,
            out.deep_view() + split_lines(rem@) == split_lines(s@),
        decreases rem@.len(),
    {
        let ghost prev = out.deep_view();
        let ghost prev_rem = rem@;
        out.push(rem.substring_char(0, i).to_owned());
        rem = rem.substring_char(i + 1, n);
        proof {
            assert(out.deep_view() =~= prev.push(prev_rem.subrange(0, i as int)));
            assert(split_lines(prev_rem) =~= seq![prev_rem.subrange(0, i as int)] + split_lines(
                rem@,
            ));
            assert(out.deep_view() + split_lines(rem@) =~= split_lines(s@));
        }
        n = rem.unicode_len();
        i = find_char(rem, '\n');
        proof {
            lemma_first_at_props(rem@, '\n');
        }
    }
    let ghost prev = out.deep_view();
    out.push(rem.to_owned());
    proof {
        assert(split_lines(rem@) =~= seq![rem@]);
        assert(out.deep_view() =~= prev.push(rem@));
        assert(out.deep_view() =~= split_lines(s@));
    }
    out
}

/// Splits into sections.
pub fn split_sections_vec(s: &str) -> (r: Vec<String>)
    ensures
        r.deep_view() == split_sections(s@),
{
    let mut out: Vec<String> = Vec::new();
    let mut rem: &str = s;
    let mut n = rem.unicode_len();
    let mut i = find_sep(rem);
    proof {
        lemma_first_sep_props(rem@);
        assert(out.deep_view() + split_sections(rem@) =~= split_sections(s@));
    }
    while i < n && i + 1 < n
        invariant
            n == rem@.len(),
            i as int == first_sep(rem@),
            i <= n,
            out.deep_view() + split_sections(rem@) == split_sections(s@),
        decreases rem@.len(),
    {
        let ghost prev = out.deep_view();
        let ghost prev_rem = rem@;
        out.push(rem.substring_char(0, i).to_owned());
        rem = rem.substring_char(i + 2, n);
        proof {
            assert(out.deep_view() =~= prev.push(prev_rem.subrange(0, i as int)));
            assert(split_sections(prev_rem) =~= seq![prev_rem.subrange(0, i as int)]
                + split_sections(rem@));
            assert(out.deep_view() + split_sections(rem@) =~= split_sections(s@));
        }
        n = rem.unicode_len();
        i = find_sep(rem);
        proof {
            lemma_first_sep_props(rem@);
        }
    }
    let ghost prev = out.deep_view();
    out.push(rem.to_owned());
    proof {
        assert(split_sections(rem@) =~= seq![rem@]);
        assert(out.deep_view() =~= prev.push(rem@));
        assert(out.deep_view() =~= split_sections(s@));
    }
    out
}

/// A line is blank when only blanks remain after trimming.
pub open spec fn line_blank(l: Seq<char>) -> bool {
    trim_spec(l).len() == 0
}

pub fn is_blank(l: &str) -> (r: bool)
    ensures
        r == line_blank(l@),
{
    trim(l).is_empty()
}

/// The prefix of `s` up to (excluding) its first line break.
pub open spec fn first_line(s: Seq<char>) -> Seq<char> {
    let i = first_at(s, '\n');
    if 0 <= i < s.len() {
        s.subrange(0, i)
    } else {
        s
    }
}

/// Copies the first line of `s`.
pub fn take_first_line(s: &str) -> (r: String)
    ensures
        r@ == first_line(s@),
{
    let n = s.unicode_len();
    let i = find_char(s, '\n');
    proof {
        lemma_first_at_props(s@, '\n');
    }
    if i < n {
        s.substring_char(0, i).to_owned()
    } else {
        s.to_owned()
    }
}

// ---------------------------------------------------------------------------
// string comparison
// ---------------------------------------------------------------------------

/// Character-wise equality of two text fragments.
pub fn str_eq(a: &str, b: &str) -> (r: bool)
    ensures
        r == (a@ == b@),
{
    let na = a.unicode_len();
    let nb = b.unicode_len();
    if na != nb {
        return false;
    }
    let mut k: usize = 0;
    while k < na
        invariant
            0 <= k <= na,
            na == a@.len(),
            na == b@.len(),
            forall|j: int| 0 <= j < k ==> a@[j] == b@[j],
        decreases na - k,
    {
        if a.get_char(k) != b.get_char(k) {
            return false;
        }
        k = k + 1;
    }
    proof {
        assert(a@ =~= b@);
    }
    true
}

/// Two characters match when they are equal or differ only in ASCII case.
pub open spec fn char_ieq(a: char, b: char) -> bool {
    a == b || (65 <= a as u32 <= 90 && b as u32 == a as u32 + 32) || (65 <= b as u32 <= 90
        && a as u32 == b as u32 + 32)
}

pub open spec fn str_ieq(a: Seq<char>, b: Seq<char>) -> bool {
    a.len() == b.len() && forall|k: int| 0 <= k < a.len() ==> char_ieq(a[k], b[k])
}

fn char_eq_nocase(a: char, b: char) -> (r: bool)
    ensures
        r == char_ieq(a, b),
{
    let ua = a as u32;
    let ub = b as u32;
    a == b || (65 <= ua && ua <= 90 && ub == ua + 32) || (65 <= ub && ub <= 90 && ua == ub + 32)
}

/// Equality of two text fragments up to ASCII case.
pub fn str_eq_nocase(a: &str, b: &str) -> (r: bool)
    ensures
        r == str_ieq(a@, b@),
{
    let na = a.unicode_len();
    let nb = b.unicode_len();
    if na != nb {
        return false;
    }
    let mut k: usize = 0;
    while k < na
        invariant
            0 <= k <= na,
            na == a@.len(),
            na == b@.len(),
            forall|j: int| 0 <= j < k ==> char_ieq(a@[j], b@[j]),
        decreases na - k,
    {
        if !char_eq_nocase(a.get_char(k), b.get_char(k)) {
            return false;
        }
        k = k + 1;
    }
    true
}

// ---------------------------------------------------------------------------
// numbers and booleans
// ---------------------------------------------------------------------------

pub open spec fn all_digits(s: Seq<char>) -> bool {
    forall|k: int| 0 <= k < s.len() ==> is_digit(s[k])
}

/// Value of a digit string read in base ten.
pub open spec fn dec_val(s: Seq<char>) -> int
    decreases s.len(),
{
    if s.len() == 0 {
        0
    } else {
        10 * dec_val(s.drop_last()) + digit_val(s[s.len() - 1])
    }
}

/// The digit part of a number: the text with one optional leading plus sign
/// removed.
pub open spec fn digits_part(s: Seq<char>) -> Seq<char> {
    if s.len() >= 1 && s[0] == '+' {
        s.drop_first()
    } else {
        s
    }
}

/// An unsigned decimal number as `str::parse` reads it: an optional plus
/// sign, then at least one digit, rejected on overflow.
pub open spec fn parse_u64_spec(s: Seq<char>) -> Option<u64> {
    let d = digits_part(s);
    if d.len() >= 1 && all_digits(d) && dec_val(d) <= u64::MAX {
        Some(dec_val(d) as u64)
    } else {
        None
    }
}

pub open spec fn parse_u32_spec(s: Seq<char>) -> Option<u32> {
    let d = digits_part(s);
    if d.len() >= 1 && all_digits(d) && dec_val(d) <= u32::MAX {
        Some(dec_val(d) as u32)
    } else {
        None
    }
}

pub proof fn lemma_dec_val_nonneg(s: Seq<char>)
    requires
        all_digits(s),
    ensures
        dec_val(s) >= 0,
    decreases s.len(),
{
    if s.len() > 0 {
        assert forall|k: int| 0 <= k < s.drop_last().len() implies is_digit(s.drop_last()[k]) by {
            assert(s.drop_last()[k] == s[k]);
        }
        lemma_dec_val_nonneg(s.drop_last());
    }
}

pub proof fn lemma_dec_val_prefix(s: Seq<char>, m: int)
    requires
        all_digits(s),
        0 <= m <= s.len(),
    ensures
        dec_val(s.subrange(0, m)) <= dec_val(s),
    decreases s.len() - m,
{
    if m == s.len() {
        assert(s.subrange(0, m) =~= s);
    } else {
        let p = s.subrange(0, m + 1);
        assert(p.drop_last() =~= s.subrange(0, m));
        assert forall|k: int| 0 <= k < p.len() implies is_digit(p[k]) by {
            assert(p[k] == s[k]);
        }
        lemma_dec_val_nonneg(p.drop_last());
        assert(dec_val(p) == 10 * dec_val(p.drop_last()) + digit_val(p[m]));
        assert(dec_val(s.subrange(0, m)) <= dec_val(s.subrange(0, m + 1)));
        lemma_dec_val_prefix(s, m + 1);
    }
}

/// Reads an unsigned 64-bit decimal number.
#[verifier::rlimit(50)]
pub fn parse_u64(s: &str) -> (r: Option<u64>)
    ensures
        r == parse_u64_spec(s@),
{
    let n = s.unicode_len();
    let mut i: usize = 0;
    if n >= 1 && s.get_char(0) == '+' {
        i = 1;
    }
    let ghost d = digits_part(s@);
    proof {
        assert(d =~= s@.subrange(i as int, n as int));
    }
    if i >= n {
        return None;
    }
    let mut acc: u64 = 0;
    let mut k: usize = i;
    while k < n
        invariant
            i <= k <= n,
            n == s@.len(),
            d == digits_part(s@),
            d == s@.subrange(i as int, n as int),
            d.len() == n - i,
            forall|j: int| 0 <= j < k - i ==> is_digit(d[j]),
            acc as int == dec_val(d.subrange(0, k - i)),
        decreases n - k,
    {
        let c = s.get_char(k);
        proof {
            assert(d[k - i] == s@[k as int]);
        }
        match digit(c) {
            None => {
                proof {
                    assert(!is_digit(d[k - i]));
                    assert(!all_digits(d));
                }
                return None;
            },
            Some(dv) => {
                let ghost pre = d.subrange(0, k - i);
                let ghost cur = d.subrange(0, k - i + 1);
                proof {
                    assert(cur.drop_last() =~= pre);
                    assert(cur[cur.len() - 1] == d[k - i]);
                    assert(dec_val(cur) == 10 * dec_val(pre) + digit_val(d[k - i]));
                }
                let m = acc.checked_mul(10);
                match m {
                    None => {
                        proof {
                            conclude_overflow(d, k - i + 1, 10 * (acc as int) + dv as int);
                        }
                        return None;
                    },
                    Some(m10) => {
                        let a2 = m10.checked_add(dv as u64);
                        match a2 {
                            None => {
                                proof {
                                    conclude_overflow(d, k - i + 1, 10 * (acc as int) + dv as int);
                                }
                                return None;
                            },
                            Some(v) => {
                                acc = v;
                            },
                        }
                    },
                }
            },
        }
        k = k + 1;
    }
    proof {
        assert(d.subrange(0, n - i) =~= d);
    }
    Some(acc)
}

/// When a prefix of the digit string already exceeds the range, the whole
/// number does.
proof fn conclude_overflow(d: Seq<char>, m: int, v: int)
    requires
        0 < m <= d.len(),
        forall|j: int| 0 <= j < m ==> is_digit(d[j]),
        dec_val(d.subrange(0, m)) == v,
        v > u64::MAX,
    ensures
        !(all_digits(d) && dec_val(d) <= u64::MAX),
{
    if all_digits(d) {
        lemma_dec_val_prefix(d, m);
    }
}

/// Reads an unsigned 32-bit decimal number.
pub fn parse_u32(s: &str) -> (r: Option<u32>)
    ensures
        r == parse_u32_spec(s@),
{
    let v = parse_u64(s);
    match v {
        Some(x) => {
            proof {
                let d = digits_part(s@);
                lemma_dec_val_nonneg(d);
                assert(dec_val(d) == x as int);
            }
            if x <= u32::MAX as u64 {
                Some(x as u32)
            } else {
                None
            }
        },
        None => {
            proof {
                let d = digits_part(s@);
                if d.len() >= 1 && all_digits(d) && dec_val(d) <= u32::MAX {
                    assert(dec_val(d) <= u64::MAX);
                }
            }
            None
        },
    }
}

/// A boolean as `str::parse` reads it: exactly `true` or `false`.
pub open spec fn parse_bool_spec(s: Seq<char>) -> Option<bool> {
    if s == "true"@ {
        Some(true)
    } else if s == "false"@ {
        Some(false)
    } else {
        None
    }
}

pub fn parse_bool(s: &str) -> (r: Option<bool>)
    ensures
        r == parse_bool_spec(s@),
{
    if str_eq(s, "true") {
        Some(true)
    } else if str_eq(s, "false") {
        Some(false)
    } else {
        None
    }
}

} // verus!
