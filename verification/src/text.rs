//! Character-sequence helpers shared by the parsers of this crate.
//!
//! Every function works on the `char` sequence that is the view of a
//! `str`/`String`; the spec functions here say what each step computes.
use vstd::prelude::*;

verus! {

// ---------------------------------------------------------------------------
// Specifications
// ---------------------------------------------------------------------------

/// `char::to_ascii_lowercase`: ASCII capitals become small letters.
pub open spec fn lower_ascii_char(c: char) -> char {
    if 65 <= (c as u32) && (c as u32) <= 90 {
        ((c as u32) + 32) as char
    } else {
        c
    }
}

/// `str::to_ascii_lowercase` on the characters of a string.
pub open spec fn lower_ascii(s: Seq<char>) -> Seq<char> {
    s.map_values(|c: char| lower_ascii_char(c))
}

/// `pat` occurs in `s` starting at position `i`.
pub open spec fn occurs_at(s: Seq<char>, pat: Seq<char>, i: int) -> bool {
    &&& 0 <= i
    &&& i + pat.len() <= s.len()
    &&& s.subrange(i, i + pat.len()) == pat
}

/// `str::contains` with a string pattern.
pub open spec fn contains_seq(s: Seq<char>, pat: Seq<char>) -> bool {
    exists|i: int| occurs_at(s, pat, i)
}

/// `str::starts_with`.
pub open spec fn starts_with(s: Seq<char>, p: Seq<char>) -> bool {
    p.len() <= s.len() && s.subrange(0, p.len() as int) == p
}

/// `str::ends_with`.
pub open spec fn ends_with(s: Seq<char>, p: Seq<char>) -> bool {
    p.len() <= s.len() && s.subrange(s.len() - p.len(), s.len() as int) == p
}

/// Position of the first occurrence of `pat` in `s` at or after `start`,
/// or -1 when there is none.
pub open spec fn find_from(s: Seq<char>, pat: Seq<char>, start: int) -> int
    decreases s.len() + 1 - start,
{
    if start < 0 || start + pat.len() > s.len() {
        -1
    } else if occurs_at(s, pat, start) {
        start
    } else {
        find_from(s, pat, start + 1)
    }
}

/// The pieces of `s` between the non-overlapping occurrences of `sep`,
/// searched from left to right starting at `start` (`str::split`).
pub open spec fn split_from(s: Seq<char>, sep: Seq<char>, start: int) -> Seq<Seq<char>>
    decreases s.len() - start,
{
    let i = find_from(s, sep, start);
    if start < 0 || start > s.len() || i < start || i + sep.len() > s.len() || sep.len() == 0 {
        seq![s.subrange(start, s.len() as int)]
    } else {
        seq![s.subrange(start, i)] + split_from(s, sep, i + sep.len())
    }
}

/// `str::split` with a non-empty string pattern.
pub open spec fn split_seq(s: Seq<char>, sep: Seq<char>) -> Seq<Seq<char>> {
    split_from(s, sep, 0)
}

/// `char::is_whitespace`: the Unicode `White_Space` property.
pub open spec fn is_space(c: char) -> bool {
    let u = c as u32;
    ||| 9 <= u && u <= 13
    ||| u == 32
    ||| u == 0x85
    ||| u == 0xA0
    ||| u == 0x1680
    ||| 0x2000 <= u && u <= 0x200A
    ||| u == 0x2028
    ||| u == 0x2029
    ||| u == 0x202F
    ||| u == 0x205F
    ||| u == 0x3000
}

/// `str::trim_start`.
pub open spec fn trim_start(s: Seq<char>) -> Seq<char>
    decreases s.len(),
{
    if s.len() > 0 && is_space(s[0]) {
        trim_start(s.drop_first())
    } else {
        s
    }
}

/// `str::trim_end`.
pub open spec fn trim_end(s: Seq<char>) -> Seq<char>
    decreases s.len(),
{
    if s.len() > 0 && is_space(s.last()) {
        trim_end(s.drop_last())
    } else {
        s
    }
}

/// `str::trim`.
pub open spec fn trim(s: Seq<char>) -> Seq<char> {
    trim_end(trim_start(s))
}

/// A line without the `'\r'` that ended it.
pub open spec fn strip_cr(line: Seq<char>) -> Seq<char> {
    if line.len() > 0 && line.last() == '\r' {
        line.drop_last()
    } else {
        line
    }
}

/// `str::lines`: the pieces between `'\n'`s, each without a `'\r'` just
/// before its `'\n'`; a final empty piece (after a last `'\n'`, or of an
/// empty string) is no line.
pub open spec fn lines(s: Seq<char>) -> Seq<Seq<char>> {
    let parts = split_seq(s, seq!['\n']);
    let n = parts.len();
    let body = Seq::new((n - 1) as nat, |i: int| strip_cr(parts[i]));
    if parts[n - 1].len() == 0 {
        body
    } else {
        body.push(parts[n - 1])
    }
}

/// Length of the run of non-white-space characters at the start of `s`.
pub open spec fn leading_token_len(s: Seq<char>) -> nat
    decreases s.len(),
{
    if s.len() == 0 || is_space(s[0]) {
        0
    } else {
        1 + leading_token_len(s.drop_first())
    }
}

/// `str::split_whitespace`: the maximal runs of non-white-space characters.
pub open spec fn ws_tokens(s: Seq<char>) -> Seq<Seq<char>>
    decreases s.len(),
{
    let t = trim_start(s);
    let k = leading_token_len(t);
    if t.len() == 0 || k == 0 || t.len() > s.len() || k > t.len() {
        seq![]
    } else {
        seq![t.subrange(0, k as int)] + ws_tokens(t.subrange(k as int, t.len() as int))
    }
}

/// `str::trim_end_matches` with a string pattern: `p` removed from the end
/// as often as it ends `s`.
pub open spec fn trim_end_matches(s: Seq<char>, p: Seq<char>) -> Seq<char>
    decreases s.len(),
{
    if p.len() > 0 && ends_with(s, p) {
        trim_end_matches(s.subrange(0, s.len() - p.len()), p)
    } else {
        s
    }
}

/// `str::replace` of one character by another.
pub open spec fn replace_char(s: Seq<char>, from: char, to: char) -> Seq<char> {
    s.map_values(|c: char| if c == from { to } else { c })
}

/// The views of a vector of character vectors.
pub open spec fn views(v: Seq<Vec<char>>) -> Seq<Seq<char>> {
    v.map_values(|x: Vec<char>| x@)
}

// ---------------------------------------------------------------------------
// Lemmas
// ---------------------------------------------------------------------------

/// `find_from` finds an occurrence, and the first one at or after `start`.
pub proof fn lemma_find_from(s: Seq<char>, pat: Seq<char>, start: int)
    requires
        0 <= start,
    ensures
        find_from(s, pat, start) == -1 || start <= find_from(s, pat, start),
        find_from(s, pat, start) >= 0 ==> occurs_at(s, pat, find_from(s, pat, start)),
        forall|j: int|
            start <= j && (j < find_from(s, pat, start) || find_from(s, pat, start) == -1)
                ==> !occurs_at(s, pat, j),
    decreases s.len() + 1 - start,
{
    if start + pat.len() > s.len() {
    } else if occurs_at(s, pat, start) {
    } else {
        lemma_find_from(s, pat, start + 1);
    }
}

/// `pat` occurs in `s` exactly when the search from the front finds it.
pub proof fn lemma_contains_find(s: Seq<char>, pat: Seq<char>)
    ensures
        contains_seq(s, pat) <==> find_from(s, pat, 0) >= 0,
{
    lemma_find_from(s, pat, 0);
    if find_from(s, pat, 0) >= 0 {
        assert(occurs_at(s, pat, find_from(s, pat, 0)));
    }
}

/// Splitting always yields at least one piece.
pub proof fn lemma_split_nonempty(s: Seq<char>, sep: Seq<char>, start: int)
    ensures
        split_from(s, sep, start).len() >= 1,
    decreases s.len() - start,
{
    let i = find_from(s, sep, start);
    if start < 0 || start > s.len() || i < start || i + sep.len() > s.len() || sep.len() == 0 {
    } else {
        lemma_split_nonempty(s, sep, i + sep.len());
    }
}

/// Trimming the start never makes a sequence longer.
pub proof fn lemma_trim_start_len(s: Seq<char>)
    ensures
        trim_start(s).len() <= s.len(),
    decreases s.len(),
{
    if s.len() > 0 && is_space(s[0]) {
        lemma_trim_start_len(s.drop_first());
    }
}

/// The leading run of non-white space of `s` ends at `k`.
pub proof fn lemma_leading_token_len(s: Seq<char>, k: int)
    requires
        0 <= k <= s.len(),
        forall|j: int| 0 <= j < k ==> !is_space(s[j]),
        k == s.len() || is_space(s[k]),
    ensures
        leading_token_len(s) == k,
    decreases k,
{
    if k > 0 {
        lemma_leading_token_len(s.drop_first(), k - 1);
    }
}

/// Trimming the start drops exactly the leading white space.
pub proof fn lemma_trim_start(s: Seq<char>, k: int)
    requires
        0 <= k <= s.len(),
        forall|j: int| 0 <= j < k ==> is_space(s[j]),
        k == s.len() || !is_space(s[k]),
    ensures
        trim_start(s) == s.subrange(k, s.len() as int),
    decreases k,
{
    if k == 0 {
        assert(s.subrange(0, s.len() as int) == s);
    } else {
        assert(s.drop_first().subrange(k - 1, s.len() - 1) == s.subrange(k, s.len() as int));
        lemma_trim_start(s.drop_first(), k - 1);
    }
}

/// Trimming the end drops exactly the trailing white space.
pub proof fn lemma_trim_end(s: Seq<char>, k: int)
    requires
        0 <= k <= s.len(),
        forall|j: int| k <= j < s.len() ==> is_space(s[j]),
        k == 0 || !is_space(s[k - 1]),
    ensures
        trim_end(s) == s.subrange(0, k),
    decreases s.len() - k,
{
    if k == s.len() {
        assert(s.subrange(0, s.len() as int) == s);
    } else {
        assert(s.drop_last().subrange(0, k) == s.subrange(0, k));
        lemma_trim_end(s.drop_last(), k);
    }
}

// ---------------------------------------------------------------------------
// Executable helpers
// ---------------------------------------------------------------------------

/// Builds a `String` from its characters (`String: FromIterator<&char>`):
/// the string holds exactly the characters of `v`, in order.
#[verifier::external_body]
pub(crate) fn string_from_chars(v: &[char]) -> (s: String)
    ensures
        s@ == v@,
{
    v.iter().collect()
}

/// The characters of `s`, in order.
pub fn chars_of(s: &str) -> (v: Vec<char>)
    ensures
        v@ == s@,
{
    let mut v: Vec<char> = Vec::new();
    for c in it: s.chars()
        invariant
            v@ == it.seq().take(it.index() as int),
            it.seq() == s@,
    {
        v.push(c);
    }
    v
}

/// `char::to_ascii_lowercase`.
pub fn lower_char(c: char) -> (r: char)
    ensures
        r == lower_ascii_char(c),
{
    if 'A' <= c && c <= 'Z' {
        let b: u8 = c as u8;
        (b + 32) as char
    } else {
        c
    }
}

/// `str::to_ascii_lowercase` on a character vector.
pub fn lowercase_ascii(v: &Vec<char>) -> (r: Vec<char>)
    ensures
        r@ == lower_ascii(v@),
{
    let mut r: Vec<char> = Vec::new();
    for i in 0..v.len()
        invariant
            r@ == lower_ascii(v@.take(i as int)),
    {
        r.push(lower_char(v[i]));
        assert(v@.take(i + 1) == v@.take(i as int).push(v@[i as int]));
    }
    assert(v@.take(v.len() as int) == v@);
    r
}

/// Whether the two character vectors are equal.
pub fn chars_eq(a: &Vec<char>, b: &Vec<char>) -> (r: bool)
    ensures
        r == (a@ == b@),
{
    if a.len() != b.len() {
        return false;
    }
    for i in 0..a.len()
        invariant
            a.len() == b.len(),
            forall|j: int| 0 <= j < i ==> a@[j] == b@[j],
    {
        if a[i] != b[i] {
            return false;
        }
    }
    assert(a@ == b@);
    true
}

/// Whether `pat` occurs in `s` at position `i`.
pub fn occurs_at_exec(s: &Vec<char>, pat: &Vec<char>, i: usize) -> (r: bool)
    ensures
        r == occurs_at(s@, pat@, i as int),
{
    if i > s.len() || pat.len() > s.len() - i {
        return false;
    }
    for j in 0..pat.len()
        invariant
            i + pat.len() <= s.len(),
            forall|k: int| 0 <= k < j ==> s@[i + k] == pat@[k],
    {
        if s[i + j] != pat[j] {
            assert(s@.subrange(i as int, i + pat.len())[j as int] != pat@[j as int]);
            return false;
        }
    }
    assert(s@.subrange(i as int, i + pat.len()) == pat@);
    true
}

/// The first occurrence of `pat` in `s` at or after `start`.
pub fn find_chars_from(s: &Vec<char>, pat: &Vec<char>, start: usize) -> (r: Option<usize>)
    ensures
        match r {
            Some(i) => i as int == find_from(s@, pat@, start as int),
            None => find_from(s@, pat@, start as int) == -1,
        },
{
    if start > s.len() || pat.len() > s.len() - start {
        return None;
    }
    let last = s.len() - pat.len();
    let mut i = start;
    loop
        invariant
            start <= i <= last,
            last + pat.len() == s.len(),
            find_from(s@, pat@, start as int) == find_from(s@, pat@, i as int),
        decreases last - i,
    {
        if occurs_at_exec(s, pat, i) {
            return Some(i);
        }
        if i == last {
            assert(find_from(s@, pat@, i + 1) == -1);
            return None;
        }
        i = i + 1;
    }
}

/// `str::contains`.
pub fn contains_chars(s: &Vec<char>, pat: &Vec<char>) -> (r: bool)
    ensures
        r == contains_seq(s@, pat@),
{
    proof {
        lemma_contains_find(s@, pat@);
    }
    match find_chars_from(s, pat, 0) {
        Some(_) => true,
        None => false,
    }
}

/// `str::starts_with`.
pub fn starts_with_chars(s: &Vec<char>, p: &Vec<char>) -> (r: bool)
    ensures
        r == starts_with(s@, p@),
{
    occurs_at_exec(s, p, 0)
}

/// `str::ends_with`.
pub fn ends_with_chars(s: &Vec<char>, p: &Vec<char>) -> (r: bool)
    ensures
        r == ends_with(s@, p@),
{
    if p.len() > s.len() {
        return false;
    }
    occurs_at_exec(s, p, s.len() - p.len())
}

/// The characters `s[from..to]`.
pub fn slice_chars(s: &Vec<char>, from: usize, to: usize) -> (r: Vec<char>)
    requires
        from <= to <= s.len(),
    ensures
        r@ == s@.subrange(from as int, to as int),
{
    let mut r: Vec<char> = Vec::new();
    for i in from..to
        invariant
            from <= i <= to <= s.len(),
            r@ == s@.subrange(from as int, i as int),
    {
        r.push(s[i]);
        assert(s@.subrange(from as int, i + 1) == s@.subrange(from as int, i as int).push(
            s@[i as int],
        ));
    }
    r
}

/// `char::is_whitespace`.
pub fn is_space_exec(c: char) -> (r: bool)
    ensures
        r == is_space(c),
{
    let u: u32 = c as u32;
    (9 <= u && u <= 13) || u == 32 || u == 0x85 || u == 0xA0 || u == 0x1680 || (0x2000 <= u
        && u <= 0x200A) || u == 0x2028 || u == 0x2029 || u == 0x202F || u == 0x205F || u == 0x3000
}

/// `str::split` with a non-empty pattern.
pub fn split_chars(s: &Vec<char>, sep: &Vec<char>) -> (r: Vec<Vec<char>>)
    requires
        sep.len() > 0,
    ensures
        views(r@) == split_seq(s@, sep@),
{
    let mut r: Vec<Vec<char>> = Vec::new();
    let mut start: usize = 0;
    loop
        invariant
            start <= s.len(),
            sep.len() > 0,
            views(r@) + split_from(s@, sep@, start as int) == split_seq(s@, sep@),
        decreases s.len() - start,
    {
        let ghost before = views(r@);
        match find_chars_from(s, sep, start) {
            None => {
                let piece = slice_chars(s, start, s.len());
                r.push(piece);
                assert(views(r@) == before.push(piece@));
                assert(split_from(s@, sep@, start as int) == seq![piece@]);
                assert(views(r@) == before + seq![piece@]);
                return r;
            },
            Some(i) => {
                proof {
                    lemma_find_from(s@, sep@, start as int);
                }
                let piece = slice_chars(s, start, i);
                r.push(piece);
                assert(views(r@) == before.push(piece@));
                assert(split_from(s@, sep@, start as int) == seq![piece@] + split_from(
                    s@,
                    sep@,
                    i + sep.len(),
                ));
                assert(before + (seq![piece@] + split_from(s@, sep@, i + sep.len())) == before.push(
                    piece@,
                ) + split_from(s@, sep@, i + sep.len()));
                start = i + sep.len();
            },
        }
    }
}

/// `str::lines`.
pub fn lines_of(s: &Vec<char>) -> (r: Vec<Vec<char>>)
    ensures
        views(r@) == lines(s@),
{
    let mut nl: Vec<char> = Vec::new();
    nl.push('\n');
    assert(nl@ == seq!['\n']);
    let parts = split_chars(s, &nl);
    proof {
        lemma_split_nonempty(s@, seq!['\n'], 0);
    }
    let ghost ps = views(parts@);
    let n = parts.len();
    let mut r: Vec<Vec<char>> = Vec::new();
    for i in 0..n - 1
        invariant
            n == parts.len(),
            n >= 1,
            ps == views(parts@),
            views(r@) == Seq::new(i as nat, |k: int| strip_cr(ps[k])),
    {
        let part = &parts[i];
        let line = if part.len() > 0 && part[part.len() - 1] == '\r' {
            slice_chars(part, 0, part.len() - 1)
        } else {
            slice_chars(part, 0, part.len())
        };
        proof {
            assert(ps[i as int] == part@);
            assert(part@.subrange(0, part@.len() as int) == part@);
            assert(line@ == strip_cr(ps[i as int]));
        }
        let ghost before = views(r@);
        r.push(line);
        assert(views(r@) == before.push(line@));
        assert(views(r@) == Seq::new((i + 1) as nat, |k: int| strip_cr(ps[k])));
    }
    let last = &parts[n - 1];
    assert(ps[n - 1] == last@);
    if last.len() > 0 {
        let piece = slice_chars(last, 0, last.len());
        assert(last@.subrange(0, last@.len() as int) == last@);
        let ghost before = views(r@);
        r.push(piece);
        assert(views(r@) == before.push(piece@));
    }
    r
}

/// `str::split_whitespace`.
pub fn ws_tokens_of(s: &Vec<char>) -> (r: Vec<Vec<char>>)
    ensures
        views(r@) == ws_tokens(s@),
{
    let len = s.len();
    let mut r: Vec<Vec<char>> = Vec::new();
    let mut i: usize = 0;
    assert(s@.subrange(0, len as int) == s@);
    loop
        invariant
            len == s.len(),
            i <= len,
            views(r@) + ws_tokens(s@.subrange(i as int, len as int)) == ws_tokens(s@),
        decreases len - i,
    {
        let ghost rest = s@.subrange(i as int, len as int);
        let mut a = i;
        while a < len && is_space_exec(s[a])
            invariant
                i <= a <= len,
                len == s.len(),
                forall|j: int| i <= j < a ==> is_space(s@[j]),
            decreases len - a,
        {
            a = a + 1;
        }
        proof {
            lemma_trim_start(rest, a - i);
            lemma_trim_start_len(rest);
        }
        let ghost t = s@.subrange(a as int, len as int);
        assert(trim_start(rest) == t);
        if a == len {
            assert(ws_tokens(rest) == Seq::<Seq<char>>::empty());
            assert(views(r@) + Seq::<Seq<char>>::empty() == views(r@));
            return r;
        }
        let mut b = a;
        while b < len && !is_space_exec(s[b])
            invariant
                a <= b <= len,
                len == s.len(),
                forall|j: int| a <= j < b ==> !is_space(s@[j]),
            decreases len - b,
        {
            b = b + 1;
        }
        proof {
            lemma_leading_token_len(t, b - a);
            assert(t.subrange(0, b - a) == s@.subrange(a as int, b as int));
            assert(t.subrange(b - a, t.len() as int) == s@.subrange(b as int, len as int));
        }
        let tok = slice_chars(s, a, b);
        let ghost before = views(r@);
        r.push(tok);
        assert(views(r@) == before.push(tok@));
        assert(ws_tokens(rest) == seq![tok@] + ws_tokens(s@.subrange(b as int, len as int)));
        assert(before + (seq![tok@] + ws_tokens(s@.subrange(b as int, len as int))) == before.push(
            tok@,
        ) + ws_tokens(s@.subrange(b as int, len as int)));
        i = b;
    }
}

/// `str::trim_end_matches` with a non-empty pattern.
pub fn trim_end_matches_chars(s: &Vec<char>, p: &Vec<char>) -> (r: Vec<char>)
    requires
        p.len() > 0,
    ensures
        r@ == trim_end_matches(s@, p@),
{
    let mut end = s.len();
    assert(s@.subrange(0, end as int) == s@);
    loop
        invariant
            end <= s.len(),
            p.len() > 0,
            trim_end_matches(s@.subrange(0, end as int), p@) == trim_end_matches(s@, p@),
        decreases end,
    {
        let head = slice_chars(s, 0, end);
        if !ends_with_chars(&head, p) {
            return head;
        }
        assert(head@.subrange(0, head@.len() - p@.len()) == s@.subrange(0, end - p.len()));
        end = end - p.len();
    }
}

/// `str::replace` of one character by another.
pub fn replace_char_exec(s: &Vec<char>, from: char, to: char) -> (r: Vec<char>)
    ensures
        r@ == replace_char(s@, from, to),
{
    let mut r: Vec<char> = Vec::new();
    for i in 0..s.len()
        invariant
            r@ == replace_char(s@.take(i as int), from, to),
    {
        let c = s[i];
        r.push(if c == from { to } else { c });
        assert(s@.take(i + 1) == s@.take(i as int).push(s@[i as int]));
    }
    assert(s@.take(s.len() as int) == s@);
    r
}

/// `str::trim`.
pub fn trim_chars(s: &Vec<char>) -> (r: Vec<char>)
    ensures
        r@ == trim(s@),
{
    let mut a: usize = 0;
    while a < s.len() && is_space_exec(s[a])
        invariant
            a <= s.len(),
            forall|j: int| 0 <= j < a ==> is_space(s@[j]),
        decreases s.len() - a,
    {
        a = a + 1;
    }
    proof {
        lemma_trim_start(s@, a as int);
    }
    let ghost t = s@.subrange(a as int, s.len() as int);
    let mut b: usize = s.len();
    while b > a && is_space_exec(s[b - 1])
        invariant
            a <= b <= s.len(),
            forall|j: int| b <= j < s.len() ==> is_space(s@[j]),
        decreases b,
    {
        b = b - 1;
    }
    proof {
        assert forall|j: int| b - a <= j < t.len() implies is_space(t[j]) by {
            assert(t[j] == s@[a + j]);
        }
        if b > a {
            assert(t[b - a - 1] == s@[b - 1]);
        }
        lemma_trim_end(t, b - a);
        assert(t.subrange(0, b - a) == s@.subrange(a as int, b as int));
    }
    slice_chars(s, a, b)
}

} // verus!
