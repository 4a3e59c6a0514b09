//! Character classes and the scanning primitives that the script language is
//! read with: white-space trimming, word runs and quoted arguments.
use vstd::prelude::*;

verus! {

/// The classes of characters that the line grammar distinguishes.
#[derive(Clone, Copy, Debug, PartialEq, Eq)]
pub enum CharClass {
    /// Unicode `White_Space`.
    WhiteSpace,
    /// Unicode word characters (`\w`).
    Word,
    /// Everything that is not a word character.
    NonWord,
    /// Every character but a line feed.
    NotNewline,
    /// The double quote `"`.
    Quote,
}

/// The Unicode `White_Space` property: the characters that `str::trim`
/// removes and that `\s` matches.
pub open spec fn is_white_space(c: char) -> bool {
    let n = c as u32;
    ||| 0x09 <= n <= 0x0d
    ||| n == 0x20
    ||| n == 0x85
    ||| n == 0xa0
    ||| n == 0x1680
    ||| 0x2000 <= n <= 0x200a
    ||| n == 0x2028
    ||| n == 0x2029
    ||| n == 0x202f
    ||| n == 0x205f
    ||| n == 0x3000
}

/// Whether the Unicode word-character table (`\w`: Alphabetic, Mark,
/// Decimal_Number, Connector_Punctuation, Join_Control) holds `c`.
pub uninterp spec fn unicode_word_char(c: char) -> bool;

pub open spec fn in_class(c: char, class: CharClass) -> bool {
    match class {
        CharClass::WhiteSpace => is_white_space(c),
        CharClass::Word => unicode_word_char(c),
        CharClass::NonWord => !unicode_word_char(c),
        CharClass::NotNewline => c != '\n',
        CharClass::Quote => c == '"',
    }
}

/// The end of the run of characters of `class` that starts at `i`.
pub open spec fn run_end(s: Seq<char>, i: int, class: CharClass) -> int
    decreases s.len() - i,
{
    if 0 <= i < s.len() && in_class(s[i], class) {
        run_end(s, i + 1, class)
    } else {
        i
    }
}

/// The start of the run of characters of `class` that ends just before `j`.
pub open spec fn run_start(s: Seq<char>, j: int, class: CharClass) -> int
    decreases j,
{
    if 0 < j <= s.len() && in_class(s[j - 1], class) {
        run_start(s, j - 1, class)
    } else {
        j
    }
}

/// `s` without its leading and trailing characters of `class`.
pub open spec fn trim_class(s: Seq<char>, class: CharClass) -> Seq<char> {
    let a = run_end(s, 0, class);
    let b = run_start(s, s.len() as int, class);
    if a < b {
        s.subrange(a, b)
    } else {
        Seq::empty()
    }
}

/// What `str::trim` gives back: `s` without leading and trailing white space.
pub open spec fn trim_white_space(s: Seq<char>) -> Seq<char> {
    trim_class(s, CharClass::WhiteSpace)
}

/// What `str::trim_matches('"')` gives back.
pub open spec fn trim_quotes(s: Seq<char>) -> Seq<char> {
    trim_class(s, CharClass::Quote)
}

pub proof fn lemma_run_end_bounds(s: Seq<char>, i: int, class: CharClass)
    requires
        0 <= i <= s.len(),
    ensures
        i <= run_end(s, i, class) <= s.len(),
        run_end(s, i, class) < s.len() ==> !in_class(s[run_end(s, i, class)], class),
        forall|k: int| i <= k < run_end(s, i, class) ==> in_class(#[trigger] s[k], class),
    decreases s.len() - i,
{
    if i < s.len() && in_class(s[i], class) {
        lemma_run_end_bounds(s, i + 1, class);
    }
}

pub proof fn lemma_run_start_bounds(s: Seq<char>, j: int, class: CharClass)
    requires
        0 <= j <= s.len(),
    ensures
        0 <= run_start(s, j, class) <= j,
        run_start(s, j, class) > 0 ==> !in_class(s[run_start(s, j, class) - 1], class),
        forall|k: int| run_start(s, j, class) <= k < j ==> in_class(#[trigger] s[k], class),
    decreases j,
{
    if j > 0 && in_class(s[j - 1], class) {
        lemma_run_start_bounds(s, j - 1, class);
    }
}

/// Whether `c` has the Unicode `White_Space` property.
pub fn is_white_space_char(c: char) -> (b: bool)
    ensures
        b == is_white_space(c),
{
    let n = c as u32;
    (0x09 <= n && n <= 0x0d) || n == 0x20 || n == 0x85 || n == 0xa0 || n == 0x1680 || (0x2000 <= n
        && n <= 0x200a) || n == 0x2028 || n == 0x2029 || n == 0x202f || n == 0x205f || n == 0x3000
}

/// `regex_syntax::is_word_character`: whether `c` is a Unicode word character,
/// the class that `\w` stands for in a Unicode regex. The contract names its
/// result and claims nothing more of it (the table has some eight hundred
/// ranges). The crate panics only when built without its `unicode-perl`
/// feature, which is on by default.
#[verifier::external_body]
fn is_word_character(c: char) -> (b: bool)
    ensures
        b == unicode_word_char(c),
{
    regex_syntax::is_word_character(c)
}

pub fn char_in_class(c: char, class: CharClass) -> (b: bool)
    ensures
        b == in_class(c, class),
{
    match class {
        CharClass::WhiteSpace => is_white_space_char(c),
        CharClass::Word => is_word_character(c),
        CharClass::NonWord => !is_word_character(c),
        CharClass::NotNewline => c != '\n',
        CharClass::Quote => c == '"',
    }
}

/// Scans forward from `i` over characters of `class`.
pub fn scan_run(s: &str, i: usize, class: CharClass) -> (e: usize)
    requires
        i <= s@.len(),
    ensures
        e == run_end(s@, i as int, class),
{
    let n = s.unicode_len();
    let mut k = i;
    while k < n && char_in_class(s.get_char(k), class)
        invariant
            n == s@.len(),
            i <= k <= n,
            run_end(s@, k as int, class) == run_end(s@, i as int, class),
        decreases n - k,
    {
        k = k + 1;
    }
    k
}

/// Scans backward from `j` over characters of `class`.
pub fn scan_run_back(s: &str, j: usize, class: CharClass) -> (b: usize)
    requires
        j <= s@.len(),
    ensures
        b == run_start(s@, j as int, class),
{
    let mut k = j;
    while k > 0 && char_in_class(s.get_char(k - 1), class)
        invariant
            k <= j <= s@.len(),
            run_start(s@, k as int, class) == run_start(s@, j as int, class),
        decreases k,
    {
        k = k - 1;
    }
    k
}

/// `s` without its leading and trailing characters of `class`.
pub fn trim_class_str(s: &str, class: CharClass) -> (r: &str)
    ensures
        r@ == trim_class(s@, class),
{
    let n = s.unicode_len();
    let a = scan_run(s, 0, class);
    let b = scan_run_back(s, n, class);
    if a < b {
        proof {
            lemma_run_end_bounds(s@, 0, class);
            lemma_run_start_bounds(s@, n as int, class);
        }
        s.substring_char(a, b)
    } else {
        s.substring_char(0, 0)
    }
}

/// `str::trim`: `s` without leading and trailing white space.
pub fn trim(s: &str) -> (r: &str)
    ensures
        r@ == trim_white_space(s@),
{
    trim_class_str(s, CharClass::WhiteSpace)
}

/// Whether two strings hold the same characters.
pub fn str_eq(a: &str, b: &str) -> (r: bool)
    ensures
        r == (a@ == b@),
{
    let n = a.unicode_len();
    if n != b.unicode_len() {
        return false;
    }
    let mut i: usize = 0;
    while i < n
        invariant
            n == a@.len(),
            n == b@.len(),
            i <= n,
            forall|k: int| 0 <= k < i ==> a@[k] == b@[k],
        decreases n - i,
    {
        if a.get_char(i) != b.get_char(i) {
            return false;
        }
        i = i + 1;
    }
    assert(a@ =~= b@);
    true
}


/// Trimming twice is trimming once.
pub proof fn lemma_trim_class_idempotent(s: Seq<char>, class: CharClass)
    ensures
        trim_class(trim_class(s, class), class) == trim_class(s, class),
{
    let a = run_end(s, 0, class);
    let b = run_start(s, s.len() as int, class);
    lemma_run_end_bounds(s, 0, class);
    lemma_run_start_bounds(s, s.len() as int, class);
    let t = trim_class(s, class);
    if a < b {
        assert(t[0] == s[a]);
        assert(t[t.len() - 1] == s[b - 1]);
        assert(run_end(t, 0, class) == 0);
        assert(run_start(t, t.len() as int, class) == t.len());
        assert(t.subrange(0, t.len() as int) =~= t);
    } else {
        assert(run_end(t, 0, class) == 0);
    }
}

} // verus!
