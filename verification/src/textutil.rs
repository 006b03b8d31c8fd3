//! Character and string groundwork shared by the whole library.
//!
//! The library reasons about text as sequences of characters. This module
//! holds the character classes used by the heuristics, the bridges between
//! `String` and `Vec<char>`, substring search, decimal formatting, and the
//! one lowercase conversion the registry and linker rely on.

use vstd::prelude::*;
use vstd::string::StrSliceExecFns;
use vstd::string::StringExecFns;

verus! {

// ---------------------------------------------------------------------------
// Character classes (ASCII semantics)
// ---------------------------------------------------------------------------

pub open spec fn is_upper(c: char) -> bool {
    'A' <= c && c <= 'Z'
}

pub open spec fn is_lower(c: char) -> bool {
    'a' <= c && c <= 'z'
}

pub open spec fn is_alpha(c: char) -> bool {
    is_upper(c) || is_lower(c)
}

pub open spec fn is_space(c: char) -> bool {
    c == ' ' || c == '\t' || c == '\n' || c == '\r'
}

pub open spec fn is_digit(c: char) -> bool {
    '0' <= c && c <= '9'
}

pub fn char_is_upper(c: char) -> (r: bool)
    ensures
        r == is_upper(c),
{
    'A' <= c && c <= 'Z'
}

pub fn char_is_lower(c: char) -> (r: bool)
    ensures
        r == is_lower(c),
{
    'a' <= c && c <= 'z'
}

pub fn char_is_alpha(c: char) -> (r: bool)
    ensures
        r == is_alpha(c),
{
    char_is_upper(c) || char_is_lower(c)
}

pub fn char_is_space(c: char) -> (r: bool)
    ensures
        r == is_space(c),
{
    c == ' ' || c == '\t' || c == '\n' || c == '\r'
}

// ---------------------------------------------------------------------------
// String <-> Vec<char> bridges
// ---------------------------------------------------------------------------

/// Collect the characters of a string slice into a vector.
pub fn string_to_chars(s: &str) -> (v: Vec<char>)
    ensures
        v@ == s@,
{
    let n: usize = s.unicode_len();
    let mut v: Vec<char> = Vec::new();
    let mut i: usize = 0;
    while i < n
        invariant
            i <= n,
            n == s@.len(),
            v@ == s@.subrange(0, i as int),
        decreases n - i,
    {
        v.push(s.get_char(i));
        i += 1;
    }
    proof {
        assert(v@ =~= s@);
    }
    v
}

/// Relies on `String::push`: appends one character at the end of the string.
#[verifier::external_body]
pub fn push_char(s: &mut String, c: char)
    ensures
        final(s)@ == old(s)@.push(c),
{
    s.push(c);
}

/// Build a `String` from a vector of characters.
pub fn chars_to_string(v: &Vec<char>) -> (s: String)
    ensures
        s@ == v@,
{
    let mut s = String::new();
    let mut i: usize = 0;
    while i < v.len()
        invariant
            i <= v@.len(),
            s@ == v@.subrange(0, i as int),
        decreases v@.len() - i,
    {
        push_char(&mut s, v[i]);
        i += 1;
    }
    proof {
        assert(s@ =~= v@);
    }
    s
}

/// Compare a character vector against a string slice.
pub fn chars_eq_str(v: &Vec<char>, s: &str) -> (r: bool)
    ensures
        r == (v@ == s@),
{
    let n: usize = s.unicode_len();
    if v.len() != n {
        proof {
            assert(v@ != s@);
        }
        return false;
    }
    let mut i: usize = 0;
    while i < n
        invariant
            i <= n,
            n == s@.len(),
            v@.len() == n,
            forall|k: int| 0 <= k < i ==> v@[k] == s@[k],
        decreases n - i,
    {
        if v[i] != s.get_char(i) {
            proof {
                assert(v@ != s@);
            }
            return false;
        }
        i += 1;
    }
    proof {
        assert(v@ =~= s@);
    }
    true
}

/// Compare two string slices by their characters.
pub fn str_eq(a: &str, b: &str) -> (r: bool)
    ensures
        r == (a@ == b@),
{
    let n: usize = a.unicode_len();
    if b.unicode_len() != n {
        proof {
            assert(a@ != b@);
        }
        return false;
    }
    let mut i: usize = 0;
    while i < n
        invariant
            i <= n,
            n == a@.len(),
            b@.len() == n,
            forall|k: int| 0 <= k < i ==> a@[k] == b@[k],
        decreases n - i,
    {
        if a.get_char(i) != b.get_char(i) {
            proof {
                assert(a@ != b@);
            }
            return false;
        }
        i += 1;
    }
    proof {
        assert(a@ =~= b@);
    }
    true
}

// ---------------------------------------------------------------------------
// Substring search
// ---------------------------------------------------------------------------

/// The characters of `needle` stand in `hay` at position `i`.
pub open spec fn matches_at(hay: Seq<char>, needle: Seq<char>, i: int) -> bool {
    0 <= i && i + needle.len() <= hay.len() && hay.subrange(i, i + needle.len()) == needle
}

/// Some occurrence of `needle` starts in `hay` at or after position `from`.
pub open spec fn has_sub_from(hay: Seq<char>, needle: Seq<char>, from: int) -> bool {
    exists|i: int| from <= i && matches_at(hay, needle, i)
}

/// `needle` occurs somewhere in `hay`.
pub open spec fn has_sub(hay: Seq<char>, needle: Seq<char>) -> bool {
    has_sub_from(hay, needle, 0)
}

fn matches_here(hay: &Vec<char>, needle: &Vec<char>, i: usize) -> (r: bool)
    requires
        i + needle@.len() <= hay@.len(),
    ensures
        r == matches_at(hay@, needle@, i as int),
{
    let hlen: usize = hay.len();
    let mut k: usize = 0;
    while k < needle.len()
        invariant
            k <= needle@.len(),
            hlen == hay@.len(),
            i + needle@.len() <= hay@.len(),
            forall|j: int| 0 <= j < k ==> hay@[i + j] == needle@[j],
        decreases needle@.len() - k,
    {
        if hay[i + k] != needle[k] {
            proof {
                assert(hay@.subrange(i as int, i + needle@.len())[k as int] == hay@[i + k]);
                assert(hay@.subrange(i as int, i + needle@.len()) != needle@);
            }
            return false;
        }
        k += 1;
    }
    proof {
        assert(hay@.subrange(i as int, i + needle@.len()) =~= needle@);
    }
    true
}

/// First occurrence of `needle` in `hay` at or after `from`, if any.
pub fn find_sub_from(hay: &Vec<char>, needle: &Vec<char>, from: usize) -> (r: Option<usize>)
    ensures
        match r {
            Some(i) => from <= i && matches_at(hay@, needle@, i as int) && forall|j: int|
                from <= j < i ==> !matches_at(hay@, needle@, j),
            None => !has_sub_from(hay@, needle@, from as int),
        },
{
    if needle.len() > hay.len() {
        proof {
            assert(forall|i: int| from <= i ==> !matches_at(hay@, needle@, i));
        }
        return None;
    }
    let last: usize = hay.len() - needle.len();
    let mut i: usize = from;
    while i <= last
        invariant
            needle@.len() <= hay@.len(),
            last == hay@.len() - needle@.len(),
            from <= i,
            forall|j: int| from <= j < i ==> !matches_at(hay@, needle@, j),
        decreases last + 1 - i,
    {
        if matches_here(hay, needle, i) {
            return Some(i);
        }
        if i == last {
            proof {
                assert(forall|j: int| from <= j ==> !matches_at(hay@, needle@, j));
            }
            return None;
        }
        i += 1;
    }
    proof {
        assert(forall|j: int| from <= j ==> !matches_at(hay@, needle@, j));
    }
    None
}

/// Whether `needle` occurs anywhere in `hay`.
pub fn contains_sub(hay: &Vec<char>, needle: &Vec<char>) -> (r: bool)
    ensures
        r == has_sub(hay@, needle@),
{
    match find_sub_from(hay, needle, 0) {
        Some(_) => true,
        None => false,
    }
}

/// Whether the characters of `hay` start with `needle`.
pub fn starts_with_sub(hay: &Vec<char>, needle: &Vec<char>) -> (r: bool)
    ensures
        r == matches_at(hay@, needle@, 0),
{
    if needle.len() > hay.len() {
        return false;
    }
    matches_here(hay, needle, 0)
}

/// Copy the characters `a .. b` out of a vector.
pub fn sub_chars_of(v: &Vec<char>, a: usize, b: usize) -> (r: Vec<char>)
    requires
        a <= b <= v@.len(),
    ensures
        r@ == v@.subrange(a as int, b as int),
{
    let mut r: Vec<char> = Vec::new();
    let mut i: usize = a;
    while i < b
        invariant
            a <= i <= b <= v@.len(),
            r@ == v@.subrange(a as int, i as int),
        decreases b - i,
    {
        r.push(v[i]);
        proof {
            assert(r@ =~= v@.subrange(a as int, i + 1));
        }
        i += 1;
    }
    r
}

/// The first position at or after `from` where `needle` stands in `hay`,
/// or -1 when there is none.
pub open spec fn find_first_at(hay: Seq<char>, needle: Seq<char>, from: int) -> int
    decreases hay.len() - from + 1,
    when 0 <= from
{
    if from + needle.len() > hay.len() {
        -1
    } else if matches_at(hay, needle, from) {
        from
    } else {
        find_first_at(hay, needle, from + 1)
    }
}

pub proof fn lemma_find_first_at(hay: Seq<char>, needle: Seq<char>, from: int, i: int)
    requires
        0 <= from <= i,
        matches_at(hay, needle, i),
        forall|j: int| from <= j < i ==> !matches_at(hay, needle, j),
    ensures
        find_first_at(hay, needle, from) == i,
    decreases i - from,
{
    if from < i {
        lemma_find_first_at(hay, needle, from + 1, i);
    }
}

pub proof fn lemma_find_first_none(hay: Seq<char>, needle: Seq<char>, from: int)
    requires
        0 <= from,
        forall|j: int| from <= j ==> !matches_at(hay, needle, j),
    ensures
        find_first_at(hay, needle, from) == -1,
    decreases hay.len() - from + 1,
{
    if from + needle.len() <= hay.len() {
        lemma_find_first_none(hay, needle, from + 1);
    }
}

/// The first position of character `c` in `t`, or -1 when there is none.
pub open spec fn find_first_char(t: Seq<char>, c: char, from: int) -> int
    decreases t.len() - from,
    when 0 <= from
{
    if from >= t.len() {
        -1
    } else if t[from] == c {
        from
    } else {
        find_first_char(t, c, from + 1)
    }
}

pub proof fn lemma_find_first_char_at(t: Seq<char>, c: char, from: int, i: int)
    requires
        0 <= from <= i < t.len(),
        t[i] == c,
        forall|j: int| from <= j < i ==> t[j] != c,
    ensures
        find_first_char(t, c, from) == i,
    decreases i - from,
{
    if from < i {
        lemma_find_first_char_at(t, c, from + 1, i);
    }
}

pub proof fn lemma_find_first_char_none(t: Seq<char>, c: char, from: int)
    requires
        0 <= from,
        forall|j: int| from <= j < t.len() ==> t[j] != c,
    ensures
        find_first_char(t, c, from) == -1,
    decreases t.len() - from,
{
    if from < t.len() {
        lemma_find_first_char_none(t, c, from + 1);
    }
}

/// The last position of character `c` below `below` in `t`, or -1 when there
/// is none.
pub open spec fn find_last_char(t: Seq<char>, c: char, below: int) -> int
    decreases below,
    when below <= t.len()
{
    if below <= 0 {
        -1
    } else if t[below - 1] == c {
        below - 1
    } else {
        find_last_char(t, c, below - 1)
    }
}

pub proof fn lemma_find_last_char_at(t: Seq<char>, c: char, below: int, i: int)
    requires
        0 <= i < below <= t.len(),
        t[i] == c,
        forall|j: int| i < j < below ==> t[j] != c,
    ensures
        find_last_char(t, c, below) == i,
    decreases below,
{
    if i < below - 1 {
        lemma_find_last_char_at(t, c, below - 1, i);
    }
}

pub proof fn lemma_find_last_char_none(t: Seq<char>, c: char, below: int)
    requires
        below <= t.len(),
        forall|j: int| 0 <= j < below ==> t[j] != c,
    ensures
        find_last_char(t, c, below) == -1,
    decreases below,
{
    if below > 0 {
        lemma_find_last_char_none(t, c, below - 1);
    }
}

// ---------------------------------------------------------------------------
// Decimal formatting
// ---------------------------------------------------------------------------

pub open spec fn digit_char(d: nat) -> char {
    if d == 0 {
        '0'
    } else if d == 1 {
        '1'
    } else if d == 2 {
        '2'
    } else if d == 3 {
        '3'
    } else if d == 4 {
        '4'
    } else if d == 5 {
        '5'
    } else if d == 6 {
        '6'
    } else if d == 7 {
        '7'
    } else if d == 8 {
        '8'
    } else {
        '9'
    }
}

/// Decimal representation of a natural number, most significant digit first.
pub open spec fn dec_rep(n: nat) -> Seq<char>
    decreases n,
{
    if n < 10 {
        seq![digit_char(n)]
    } else {
        dec_rep(n / 10).push(digit_char(n % 10))
    }
}

fn digit_to_char(d: usize) -> (c: char)
    requires
        d < 10,
    ensures
        c == digit_char(d as nat),
{
    if d == 0 {
        '0'
    } else if d == 1 {
        '1'
    } else if d == 2 {
        '2'
    } else if d == 3 {
        '3'
    } else if d == 4 {
        '4'
    } else if d == 5 {
        '5'
    } else if d == 6 {
        '6'
    } else if d == 7 {
        '7'
    } else if d == 8 {
        '8'
    } else {
        '9'
    }
}

fn push_dec(n: usize, out: &mut Vec<char>)
    ensures
        final(out)@ == old(out)@ + dec_rep(n as nat),
    decreases n,
{
    if n < 10 {
        out.push(digit_to_char(n));
        proof {
            assert(out@ =~= old(out)@ + dec_rep(n as nat));
        }
    } else {
        push_dec(n / 10, out);
        out.push(digit_to_char(n % 10));
        proof {
            assert(out@ =~= old(out)@ + dec_rep(n as nat));
        }
    }
}

/// Write a number in decimal.
pub fn usize_to_chars(n: usize) -> (v: Vec<char>)
    ensures
        v@ == dec_rep(n as nat),
{
    let mut v: Vec<char> = Vec::new();
    push_dec(n, &mut v);
    proof {
        assert(v@ =~= dec_rep(n as nat));
    }
    v
}

/// Write a number in decimal as a `String`.
pub fn usize_to_string(n: usize) -> (s: String)
    ensures
        s@ == dec_rep(n as nat),
{
    let v = usize_to_chars(n);
    chars_to_string(&v)
}

pub open spec fn hex_char_of(d: nat) -> char {
    if d < 10 {
        digit_char(d)
    } else if d == 10 {
        'a'
    } else if d == 11 {
        'b'
    } else if d == 12 {
        'c'
    } else if d == 13 {
        'd'
    } else if d == 14 {
        'e'
    } else {
        'f'
    }
}

/// One hexadecimal digit.
pub fn hex_to_char(d: usize) -> (c: char)
    requires
        d < 16,
    ensures
        c == hex_char_of(d as nat),
{
    if d < 10 {
        digit_to_char(d)
    } else if d == 10 {
        'a'
    } else if d == 11 {
        'b'
    } else if d == 12 {
        'c'
    } else if d == 13 {
        'd'
    } else if d == 14 {
        'e'
    } else {
        'f'
    }
}

// ---------------------------------------------------------------------------
// Lowercase folding
// ---------------------------------------------------------------------------

/// What `str::to_lowercase` returns: a function of the characters alone.
pub uninterp spec fn lowered(s: Seq<char>) -> Seq<char>;

/// Relies on `str::to_lowercase`: the result depends only on the characters
/// of the input; an empty input stays empty.
#[verifier::external_body]
pub fn to_lower(s: &str) -> (r: String)
    ensures
        r@ == lowered(s@),
        s@.len() == 0 ==> r@.len() == 0,
{
    s.to_lowercase()
}

/// Lowercase a character vector.
pub fn chars_to_lower(v: &Vec<char>) -> (r: Vec<char>)
    ensures
        r@ == lowered(v@),
{
    let s = chars_to_string(v);
    let l = to_lower(s.as_str());
    string_to_chars(l.as_str())
}

/// Drop whitespace from the front.
pub open spec fn trim_ws_front(s: Seq<char>) -> Seq<char>
    decreases s.len(),
{
    if s.len() == 0 {
        s
    } else if is_space(s[0]) {
        trim_ws_front(s.drop_first())
    } else {
        s
    }
}

/// Drop whitespace from the back.
pub open spec fn trim_ws_back(s: Seq<char>) -> Seq<char>
    decreases s.len(),
{
    if s.len() == 0 {
        s
    } else if is_space(s.last()) {
        trim_ws_back(s.drop_last())
    } else {
        s
    }
}

/// Drop whitespace from both ends.
pub open spec fn trim_ws(s: Seq<char>) -> Seq<char> {
    trim_ws_back(trim_ws_front(s))
}

fn trim_ws_front_exec(v: Vec<char>) -> (r: Vec<char>)
    ensures
        r@ == trim_ws_front(v@),
    decreases v@.len(),
{
    if v.len() == 0 {
        v
    } else if char_is_space(v[0]) {
        let mut v = v;
        let ghost before = v@;
        v.remove(0);
        proof {
            assert(v@ =~= before.drop_first());
        }
        trim_ws_front_exec(v)
    } else {
        v
    }
}

fn trim_ws_back_exec(v: Vec<char>) -> (r: Vec<char>)
    ensures
        r@ == trim_ws_back(v@),
    decreases v@.len(),
{
    if v.len() == 0 {
        v
    } else if char_is_space(v[v.len() - 1]) {
        let mut v = v;
        let ghost before = v@;
        v.pop();
        proof {
            assert(v@ =~= before.drop_last());
        }
        trim_ws_back_exec(v)
    } else {
        v
    }
}

/// Drop whitespace from both ends of a character vector.
pub fn trim_ws_exec(v: Vec<char>) -> (r: Vec<char>)
    ensures
        r@ == trim_ws(v@),
{
    trim_ws_back_exec(trim_ws_front_exec(v))
}

// ---------------------------------------------------------------------------
// Joining
// ---------------------------------------------------------------------------

/// Concatenation of `parts` with `sep` between consecutive parts.
pub open spec fn join_with(parts: Seq<Seq<char>>, sep: Seq<char>) -> Seq<char>
    decreases parts.len(),
{
    if parts.len() == 0 {
        Seq::empty()
    } else if parts.len() == 1 {
        parts[0]
    } else {
        parts[0] + sep + join_with(parts.drop_first(), sep)
    }
}

proof fn lemma_join_push(parts: Seq<Seq<char>>, sep: Seq<char>, x: Seq<char>)
    ensures
        parts.len() == 0 ==> join_with(parts.push(x), sep) == x,
        parts.len() > 0 ==> join_with(parts.push(x), sep) == join_with(parts, sep) + sep + x,
    decreases parts.len(),
{
    if parts.len() == 0 {
        assert(parts.push(x)[0] == x);
        assert(join_with(parts.push(x), sep) == x);
    } else if parts.len() == 1 {
        assert(parts.push(x).drop_first() =~= seq![x]);
        assert(parts.push(x)[0] == parts[0]);
        assert(join_with(seq![x], sep) == seq![x][0]);
        assert(seq![x][0] == x);
        assert(join_with(parts.push(x), sep) == parts[0] + sep + x);
        assert(join_with(parts, sep) == parts[0]);
    } else {
        lemma_join_push(parts.drop_first(), sep, x);
        assert(parts.push(x).drop_first() =~= parts.drop_first().push(x));
        assert(join_with(parts.push(x), sep) == parts[0] + sep + join_with(
            parts.drop_first().push(x),
            sep,
        ));
        assert(join_with(parts.drop_first().push(x), sep) == join_with(parts.drop_first(), sep)
            + sep + x);
        assert(parts[0] + sep + (join_with(parts.drop_first(), sep) + sep + x) =~= (parts[0] + sep
            + join_with(parts.drop_first(), sep)) + sep + x);
    }
}

/// Join strings with a separator.
pub fn join_strings(parts: &Vec<String>, sep: &str) -> (r: String)
    ensures
        r@ == join_with(parts@.map_values(|p: String| p@), sep@),
{
    let ghost views = parts@.map_values(|p: String| p@);
    let mut acc = String::new();
    let mut i: usize = 0;
    while i < parts.len()
        invariant
            i <= parts@.len(),
            views == parts@.map_values(|p: String| p@),
            acc@ == join_with(views.take(i as int), sep@),
        decreases parts@.len() - i,
    {
        if i > 0 {
            acc.append(sep);
        }
        acc.append(parts[i].as_str());
        proof {
            lemma_join_push(views.take(i as int), sep@, views[i as int]);
            assert(views.take(i + 1) =~= views.take(i as int).push(views[i as int]));
            if i == 0 {
                assert(acc@ =~= join_with(views.take(i + 1), sep@));
            } else {
                assert(acc@ =~= join_with(views.take(i + 1), sep@));
            }
        }
        i += 1;
    }
    proof {
        assert(views.take(parts@.len() as int) =~= views);
    }
    acc
}

} // verus!
