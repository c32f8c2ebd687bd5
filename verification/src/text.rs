//! Text operations over character sequences.
//!
//! A string is modelled by its view, the sequence of its characters. The
//! executable functions work on vectors of characters, so that every position
//! is reached in constant time.
use vstd::prelude::*;

verus! {

/// Appending a character with `String::push` adds it behind all the others.
pub assume_specification[ String::push ](s: &mut String, c: char)
    ensures
        final(s)@ == old(s)@.push(c),
;

/// The characters with the Unicode property `White_Space`.
pub open spec fn white(c: char) -> bool {
    let u = c as u32;
    ||| 0x09 <= u <= 0x0d
    ||| u == 0x20
    ||| u == 0x85
    ||| u == 0xa0
    ||| u == 0x1680
    ||| 0x2000 <= u <= 0x200a
    ||| u == 0x2028
    ||| u == 0x2029
    ||| u == 0x202f
    ||| u == 0x205f
    ||| u == 0x3000
}

pub fn is_white(c: char) -> (r: bool)
    ensures
        r == white(c),
{
    let u: u32 = c as u32;
    (0x09 <= u && u <= 0x0d) || u == 0x20 || u == 0x85 || u == 0xa0 || u == 0x1680 || (0x2000 <= u
        && u <= 0x200a) || u == 0x2028 || u == 0x2029 || u == 0x202f || u == 0x205f || u == 0x3000
}

/// `s` without the white space in front.
pub open spec fn trim_start(s: Seq<char>) -> Seq<char>
    decreases s.len(),
{
    if s.len() > 0 && white(s[0]) {
        trim_start(s.drop_first())
    } else {
        s
    }
}

/// `s` without the white space behind.
pub open spec fn trim_end(s: Seq<char>) -> Seq<char>
    decreases s.len(),
{
    if s.len() > 0 && white(s.last()) {
        trim_end(s.drop_last())
    } else {
        s
    }
}

/// `s` without the white space on either side.
pub open spec fn trim(s: Seq<char>) -> Seq<char> {
    trim_end(trim_start(s))
}

proof fn lemma_trim_start_len(s: Seq<char>)
    ensures
        trim_start(s).len() <= s.len(),
    decreases s.len(),
{
    if s.len() > 0 && white(s[0]) {
        lemma_trim_start_len(s.drop_first());
    }
}

proof fn lemma_trim_end_len(s: Seq<char>)
    ensures
        trim_end(s).len() <= s.len(),
    decreases s.len(),
{
    if s.len() > 0 && white(s.last()) {
        lemma_trim_end_len(s.drop_last());
    }
}

/// A text that trimming leaves as it is has no white space at either end.
pub proof fn lemma_trimmed_ends(s: Seq<char>)
    requires
        trim(s) == s,
        s.len() > 0,
    ensures
        !white(s[0]),
        !white(s.last()),
{
    lemma_trim_end_len(trim_start(s));
    if white(s[0]) {
        lemma_trim_start_len(s.drop_first());
    }
    if white(s.last()) {
        lemma_trim_end_len(s.drop_last());
    }
}

/// The first position of `c` in `s`, or the length of `s` where it has none.
pub open spec fn find_char(s: Seq<char>, c: char) -> int
    decreases s.len(),
{
    if s.len() == 0 || s[0] == c {
        0
    } else {
        1 + find_char(s.drop_first(), c)
    }
}

pub proof fn lemma_find_char(s: Seq<char>, c: char)
    ensures
        0 <= find_char(s, c) <= s.len(),
        forall|i: int| 0 <= i < find_char(s, c) ==> s[i] != c,
        find_char(s, c) < s.len() ==> s[find_char(s, c)] == c,
    decreases s.len(),
{
    if s.len() > 0 && s[0] != c {
        let t = s.drop_first();
        lemma_find_char(t, c);
        assert forall|i: int| 0 <= i < find_char(s, c) implies s[i] != c by {
            if i > 0 {
                assert(s[i] == t[i - 1]);
            }
        }
    }
}

/// `find_char` is the only position with no `c` before it that holds `c` or is the end.
pub proof fn lemma_find_char_unique(s: Seq<char>, c: char, p: int)
    requires
        0 <= p <= s.len(),
        forall|i: int| 0 <= i < p ==> s[i] != c,
        p < s.len() ==> s[p] == c,
    ensures
        find_char(s, c) == p,
{
    lemma_find_char(s, c);
    if find_char(s, c) < p {
        assert(s[find_char(s, c)] != c);
    }
    if find_char(s, c) > p {
        assert(s[p] != c);
    }
}

/// The pieces of `s` between the occurrences of `sep`; one more than there are occurrences.
pub open spec fn split_on(s: Seq<char>, sep: char) -> Seq<Seq<char>>
    decreases s.len(),
{
    let p = find_char(s, sep);
    if p == s.len() {
        seq![s]
    } else {
        proof {
            lemma_find_char(s, sep);
        }
        seq![s.subrange(0, p)] + split_on(s.subrange(p + 1, s.len() as int), sep)
    }
}

/// A line without the carriage return that ends it.
pub open spec fn chomp(line: Seq<char>) -> Seq<char> {
    if line.len() > 0 && line.last() == '\r' {
        line.drop_last()
    } else {
        line
    }
}

/// The lines of `s`: each ends with a line feed, which a carriage return may precede;
/// the last one may end with the text.
pub open spec fn lines(s: Seq<char>) -> Seq<Seq<char>>
    decreases s.len(),
{
    let p = find_char(s, '\n');
    if s.len() == 0 {
        Seq::empty()
    } else if p == s.len() {
        seq![s]
    } else {
        proof {
            lemma_find_char(s, '\n');
        }
        seq![chomp(s.subrange(0, p))] + lines(s.subrange(p + 1, s.len() as int))
    }
}

/// `pat` stands in `s` at position `i`.
pub open spec fn occurs_at(s: Seq<char>, pat: Seq<char>, i: int) -> bool {
    0 <= i && i + pat.len() <= s.len() && s.subrange(i, i + pat.len()) == pat
}

/// `pat` stands somewhere in `s`.
pub open spec fn contains_text(s: Seq<char>, pat: Seq<char>) -> bool {
    exists|i: int| occurs_at(s, pat, i)
}

/// What follows the prefix `pre` in `s`, where `s` starts with it.
pub open spec fn strip_prefix(s: Seq<char>, pre: Seq<char>) -> Option<Seq<char>> {
    if occurs_at(s, pre, 0) {
        Some(s.subrange(pre.len() as int, s.len() as int))
    } else {
        None
    }
}

/// `parts` one after the other, with `sep` between them.
pub open spec fn join(parts: Seq<Seq<char>>, sep: Seq<char>) -> Seq<char>
    decreases parts.len(),
{
    if parts.len() == 0 {
        Seq::empty()
    } else if parts.len() == 1 {
        parts[0]
    } else {
        join(parts.drop_last(), sep) + sep + parts.last()
    }
}

/// The character of a decimal digit.
pub open spec fn digit_char(d: int) -> char {
    if d == 0 { '0' } else if d == 1 { '1' } else if d == 2 { '2' } else if d == 3 { '3' }
    else if d == 4 { '4' } else if d == 5 { '5' } else if d == 6 { '6' } else if d == 7 { '7' }
    else if d == 8 { '8' } else { '9' }
}

/// The decimal digits of `n`.
pub open spec fn digits(n: nat) -> Seq<char>
    decreases n,
{
    if n < 10 {
        seq![digit_char(n as int)]
    } else {
        digits(n / 10).push(digit_char((n % 10) as int))
    }
}

/// The decimal notation of `i`.
pub open spec fn decimal(i: int) -> Seq<char> {
    if i < 0 {
        seq!['-'] + digits((-i) as nat)
    } else {
        digits(i as nat)
    }
}

/// An ASCII capital as its small letter; any other character as itself.
pub open spec fn ascii_lower(c: char) -> char {
    if 'A' <= c && c <= 'Z' {
        ((c as u32 + 32) as u32) as char
    } else {
        c
    }
}

/// Equal but for the case of ASCII letters.
pub open spec fn eq_ignore_ascii_case(a: Seq<char>, b: Seq<char>) -> bool {
    a.len() == b.len() && forall|i: int|
        0 <= i < a.len() ==> ascii_lower(a[i]) == #[trigger] ascii_lower(b[i])
}

/// The view of a string that may be absent.
pub open spec fn option_text(r: Option<String>) -> Option<Seq<char>> {
    match r {
        Some(s) => Some(s@),
        None => None,
    }
}

/// The views of a list of strings.
pub open spec fn texts(v: Seq<String>) -> Seq<Seq<char>> {
    v.map_values(|s: String| s@)
}

/// The views of a list of character vectors.
pub open spec fn pieces(v: Seq<Vec<char>>) -> Seq<Seq<char>> {
    v.map_values(|s: Vec<char>| s@)
}

/// The characters of a string.
pub fn chars_of(s: &str) -> (v: Vec<char>)
    ensures
        v@ == s@,
{
    let mut v: Vec<char> = Vec::new();
    for c in it: s.chars()
        invariant
            v@ == it.seq().take(it.index() as int),
    {
        v.push(c);
    }
    v
}

/// The string of the characters from `from` up to `to`.
pub fn text_of(v: &Vec<char>, from: usize, to: usize) -> (s: String)
    requires
        from <= to <= v@.len(),
    ensures
        s@ == v@.subrange(from as int, to as int),
{
    let mut s = String::new();
    let mut i: usize = from;
    while i < to
        invariant
            from <= i <= to <= v@.len(),
            s@ == v@.subrange(from as int, i as int),
        decreases to - i,
    {
        s.push(v[i]);
        i = i + 1;
    }
    s
}

/// The part of a vector from `from` up to `to`.
pub fn part_of(v: &Vec<char>, from: usize, to: usize) -> (s: Vec<char>)
    requires
        from <= to <= v@.len(),
    ensures
        s@ == v@.subrange(from as int, to as int),
{
    let mut s: Vec<char> = Vec::new();
    let mut i: usize = from;
    while i < to
        invariant
            from <= i <= to <= v@.len(),
            s@ == v@.subrange(from as int, i as int),
        decreases to - i,
    {
        s.push(v[i]);
        i = i + 1;
    }
    s
}

/// Whether two strings hold the same characters.
pub fn same(a: &str, b: &str) -> (r: bool)
    ensures
        r == (a@ == b@),
{
    let x = a.to_owned();
    let y = b.to_owned();
    x == y
}

/// The bounds of what trimming leaves of the part from `from` up to `to`.
pub fn trim_bounds(v: &Vec<char>, from: usize, to: usize) -> (r: (usize, usize))
    requires
        from <= to <= v@.len(),
    ensures
        from <= r.0 <= r.1 <= to,
        v@.subrange(r.0 as int, r.1 as int) == trim(v@.subrange(from as int, to as int)),
{
    let mut lo: usize = from;
    while lo < to && is_white(v[lo])
        invariant
            from <= lo <= to <= v@.len(),
            trim_start(v@.subrange(lo as int, to as int)) == trim_start(
                v@.subrange(from as int, to as int),
            ),
        ensures
            from <= lo <= to <= v@.len(),
            v@.subrange(lo as int, to as int) == trim_start(v@.subrange(from as int, to as int)),
        decreases to - lo,
    {
        proof {
            let s = v@.subrange(lo as int, to as int);
            assert(s.drop_first() =~= v@.subrange(lo + 1, to as int));
        }
        lo = lo + 1;
    }
    let mut hi: usize = to;
    while lo < hi && is_white(v[hi - 1])
        invariant
            from <= lo <= hi <= to <= v@.len(),
            trim_end(v@.subrange(lo as int, hi as int)) == trim_end(
                v@.subrange(lo as int, to as int),
            ),
        ensures
            from <= lo <= hi <= to <= v@.len(),
            v@.subrange(lo as int, hi as int) == trim_end(v@.subrange(lo as int, to as int)),
        decreases hi - lo,
    {
        proof {
            let s = v@.subrange(lo as int, hi as int);
            assert(s.drop_last() =~= v@.subrange(lo as int, hi - 1));
        }
        hi = hi - 1;
    }
    (lo, hi)
}

/// The string without the white space on either side.
pub fn trimmed(s: &str) -> (r: String)
    ensures
        r@ == trim(s@),
{
    let v = chars_of(s);
    let n: usize = v.len();
    proof {
        assert(v@.subrange(0, n as int) =~= s@);
    }
    let b = trim_bounds(&v, 0, n);
    text_of(&v, b.0, b.1)
}

/// The first position of `c` from `from` on, or the length.
pub fn find_from(v: &Vec<char>, from: usize, c: char) -> (p: usize)
    requires
        from <= v@.len(),
    ensures
        from <= p <= v@.len(),
        p - from == find_char(v@.subrange(from as int, v@.len() as int), c),
{
    let ghost s = v@.subrange(from as int, v@.len() as int);
    let mut p: usize = from;
    while p < v.len() && v[p] != c
        invariant
            from <= p <= v@.len(),
            forall|i: int| from <= i < p ==> v@[i] != c,
        ensures
            from <= p <= v@.len(),
            forall|i: int| from <= i < p ==> v@[i] != c,
            p < v@.len() ==> v@[p as int] == c,
        decreases v@.len() - p,
    {
        p = p + 1;
    }
    proof {
        lemma_find_char_unique(s, c, p - from);
    }
    p
}

/// The pieces between the occurrences of `sep`.
pub fn split(v: &Vec<char>, sep: char) -> (r: Vec<Vec<char>>)
    ensures
        pieces(r@) == split_on(v@, sep),
{
    let mut r: Vec<Vec<char>> = Vec::new();
    let mut from: usize = 0;
    let n: usize = v.len();
    proof {
        assert(v@.subrange(0, n as int) =~= v@);
        assert(pieces(r@) + split_on(v@, sep) =~= split_on(v@, sep));
    }
    loop
        invariant
            n == v@.len(),
            from <= n,
            pieces(r@) + split_on(v@.subrange(from as int, n as int), sep) == split_on(v@, sep),
        decreases n - from,
    {
        let p = find_from(v, from, sep);
        let ghost before = pieces(r@);
        let ghost rest = v@.subrange(from as int, n as int);
        proof {
            lemma_find_char(rest, sep);
        }
        let piece = part_of(v, from, p);
        r.push(piece);
        proof {
            assert(pieces(r@) =~= before.push(v@.subrange(from as int, p as int)));
        }
        if p == n {
            proof {
                assert(v@.subrange(from as int, p as int) == rest);
                assert(pieces(r@) =~= before + seq![rest]);
            }
            return r;
        }
        proof {
            assert(rest.subrange(0, p - from) =~= v@.subrange(from as int, p as int));
            assert(rest.subrange(p - from + 1, rest.len() as int) =~= v@.subrange(p + 1, n as int));
            assert(pieces(r@) + split_on(v@.subrange(p + 1, n as int), sep) =~= before + (seq![
                v@.subrange(from as int, p as int),
            ] + split_on(v@.subrange(p + 1, n as int), sep)));
        }
        from = p + 1;
    }
}

/// The lines of a text.
pub fn split_lines(v: &Vec<char>) -> (r: Vec<Vec<char>>)
    ensures
        pieces(r@) == lines(v@),
{
    let mut r: Vec<Vec<char>> = Vec::new();
    let mut from: usize = 0;
    let n: usize = v.len();
    proof {
        assert(v@.subrange(0, n as int) =~= v@);
        assert(pieces(r@) + lines(v@) =~= lines(v@));
    }
    while from < n
        invariant
            n == v@.len(),
            from <= n,
            pieces(r@) + lines(v@.subrange(from as int, n as int)) == lines(v@),
        decreases n - from,
    {
        let p = find_from(v, from, '\n');
        let ghost before = pieces(r@);
        let ghost rest = v@.subrange(from as int, n as int);
        proof {
            lemma_find_char(rest, '\n');
        }
        if p == n {
            let piece = part_of(v, from, n);
            r.push(piece);
            proof {
                assert(pieces(r@) =~= before.push(rest));
                assert(before.push(rest) =~= before + seq![rest]);
                assert(v@.subrange(n as int, n as int) =~= Seq::empty());
                assert(pieces(r@) + Seq::<Seq<char>>::empty() =~= pieces(r@));
            }
            from = n;
        } else {
            let end = if p > from && v[p - 1] == '\r' {
                p - 1
            } else {
                p
            };
            let piece = part_of(v, from, end);
            r.push(piece);
            proof {
                let line = rest.subrange(0, p - from);
                assert(line =~= v@.subrange(from as int, p as int));
                assert(chomp(line) =~= v@.subrange(from as int, end as int));
                assert(pieces(r@) =~= before.push(chomp(line)));
                assert(rest.subrange(p - from + 1, rest.len() as int) =~= v@.subrange(p + 1, n as int));
                assert(pieces(r@) + lines(v@.subrange(p + 1, n as int)) =~= before + (seq![
                    chomp(line),
                ] + lines(v@.subrange(p + 1, n as int))));
            }
            from = p + 1;
        }
    }
    proof {
        assert(v@.subrange(n as int, n as int) =~= Seq::empty());
        assert(pieces(r@) + Seq::<Seq<char>>::empty() =~= pieces(r@));
    }
    r
}

/// Whether `pat` stands in `v` at position `at`.
pub fn occurs(v: &Vec<char>, pat: &Vec<char>, at: usize) -> (r: bool)
    ensures
        r == occurs_at(v@, pat@, at as int),
{
    let n: usize = v.len();
    if at > n || pat.len() > n - at {
        return false;
    }
    let mut i: usize = 0;
    while i < pat.len()
        invariant
            at + pat@.len() <= v@.len(),
            n == v@.len(),
            i <= pat@.len(),
            forall|j: int| 0 <= j < i ==> v@[at + j] == pat@[j],
        decreases pat@.len() - i,
    {
        if v[at + i] != pat[i] {
            proof {
                assert(v@.subrange(at as int, at + pat@.len())[i as int] != pat@[i as int]);
            }
            return false;
        }
        i = i + 1;
    }
    proof {
        assert(v@.subrange(at as int, at + pat@.len()) =~= pat@);
    }
    true
}

/// Whether `pat` stands somewhere in `s`.
pub fn contains(s: &str, pat: &str) -> (r: bool)
    ensures
        r == contains_text(s@, pat@),
{
    let v = chars_of(s);
    let p = chars_of(pat);
    let mut i: usize = 0;
    while i <= v.len()
        invariant
            v@ == s@,
            p@ == pat@,
            i <= v@.len() + 1,
            forall|j: int| 0 <= j < i ==> !occurs_at(s@, pat@, j),
        decreases v@.len() + 1 - i,
    {
        if occurs(&v, &p, i) {
            return true;
        }
        if i == v.len() {
            proof {
                assert forall|j: int| !occurs_at(s@, pat@, j) by {}
            }
            return false;
        }
        i = i + 1;
    }
    false
}

/// What follows the prefix `pre`, where the string starts with it.
pub fn after_prefix(s: &str, pre: &str) -> (r: Option<String>)
    ensures
        option_text(r) == strip_prefix(s@, pre@),
{
    let v = chars_of(s);
    let p = chars_of(pre);
    if occurs(&v, &p, 0) {
        let n: usize = v.len();
        Some(text_of(&v, p.len(), n))
    } else {
        None
    }
}

/// The character of a digit.
fn digit(d: u64) -> (c: char)
    requires
        d < 10,
    ensures
        c == digit_char(d as int),
{
    match d {
        0 => '0',
        1 => '1',
        2 => '2',
        3 => '3',
        4 => '4',
        5 => '5',
        6 => '6',
        7 => '7',
        8 => '8',
        _ => '9',
    }
}

/// Appends the decimal digits of `n`.
pub fn push_digits(s: &mut String, n: u64)
    ensures
        final(s)@ == old(s)@ + digits(n as nat),
    decreases n,
{
    if n >= 10 {
        push_digits(s, n / 10);
    }
    s.push(digit(n % 10));
    proof {
        if n >= 10 {
            assert(s@ =~= old(s)@ + digits(n as nat));
        } else {
            assert(s@ =~= old(s)@ + digits(n as nat));
        }
    }
}

/// Appends the decimal notation of `i`.
pub fn push_decimal(s: &mut String, i: i64)
    ensures
        final(s)@ == old(s)@ + decimal(i as int),
{
    if i < 0 {
        s.push('-');
        let magnitude: u64 = (-(i as i128)) as u64;
        push_digits(s, magnitude);
        proof {
            assert(s@ =~= old(s)@ + (seq!['-'] + digits((-i) as nat)));
        }
    } else {
        push_digits(s, i as u64);
    }
}

/// `a` followed by `b`.
pub fn concat(a: &str, b: &str) -> (r: String)
    ensures
        r@ == a@ + b@,
{
    let mut r = a.to_owned();
    r.append(b);
    r
}

/// `a`, `b` and `c` one after the other.
pub fn concat3(a: &str, b: &str, c: &str) -> (r: String)
    ensures
        r@ == a@ + b@ + c@,
{
    let mut r = a.to_owned();
    r.append(b);
    r.append(c);
    r
}

/// The small letter of an ASCII capital.
pub fn lower_ascii(c: char) -> (r: char)
    ensures
        r == ascii_lower(c),
{
    if 'A' <= c && c <= 'Z' {
        ((c as u8) + 32) as char
    } else {
        c
    }
}

/// Whether two strings are equal but for the case of ASCII letters.
pub fn same_ignoring_ascii_case(a: &str, b: &str) -> (r: bool)
    ensures
        r == eq_ignore_ascii_case(a@, b@),
{
    let x = chars_of(a);
    let y = chars_of(b);
    if x.len() != y.len() {
        return false;
    }
    let mut i: usize = 0;
    while i < x.len()
        invariant
            x@ == a@,
            y@ == b@,
            x@.len() == y@.len(),
            i <= x@.len(),
            forall|j: int| 0 <= j < i ==> ascii_lower(a@[j]) == #[trigger] ascii_lower(b@[j]),
        decreases x@.len() - i,
    {
        if lower_ascii(x[i]) != lower_ascii(y[i]) {
            return false;
        }
        i = i + 1;
    }
    true
}

/// The strings one after the other, with `sep` between them.
pub fn join_texts(parts: &Vec<String>, sep: &str) -> (r: String)
    ensures
        r@ == join(texts(parts@), sep@),
{
    let mut r = String::new();
    let mut i: usize = 0;
    proof {
        assert(texts(parts@).take(0) =~= Seq::empty());
    }
    while i < parts.len()
        invariant
            i <= parts@.len(),
            r@ == join(texts(parts@).take(i as int), sep@),
        decreases parts@.len() - i,
    {
        let ghost done = texts(parts@).take(i as int);
        let ghost next = texts(parts@).take(i + 1);
        proof {
            assert(next.drop_last() =~= done);
            assert(next.last() == parts@[i as int]@);
        }
        if i > 0 {
            r.append(sep);
        }
        r.append(parts[i].as_str());
        proof {
            if i == 0 {
                assert(r@ =~= next[0]);
            }
        }
        i = i + 1;
    }
    proof {
        assert(texts(parts@).take(parts@.len() as int) =~= texts(parts@));
    }
    r
}

/// What `str::to_lowercase` makes of a text.
pub uninterp spec fn lowercase(s: Seq<char>) -> Seq<char>;

/// `str::to_lowercase`: its result depends on the text alone; a text of ASCII characters
/// has each of its capitals replaced by the small letter.
#[verifier::external_body]
pub(crate) fn to_lower(s: &str) -> (r: String)
    ensures
        r@ == lowercase(s@),
        (forall|i: int| 0 <= i < s@.len() ==> (s@[i] as u32) < 0x80) ==> r@ == s@.map_values(
            |c: char| ascii_lower(c),
        ),
{
    s.to_lowercase()
}

/// `str::from_utf8`: gives the text whose UTF-8 encoding the bytes are, and nothing where
/// they are not well-formed UTF-8.
#[verifier::external_body]
pub(crate) fn utf8_text(bytes: &[u8]) -> (r: Option<&str>)
    ensures
        match r {
            Some(s) => vstd::utf8::valid_utf8(bytes@) && s@ == vstd::utf8::decode_utf8(bytes@),
            None => !vstd::utf8::valid_utf8(bytes@),
        },
{
    std::str::from_utf8(bytes).ok()
}

/// What `String::from_utf8_lossy` makes of bytes.
pub uninterp spec fn utf8_lossy(bytes: Seq<u8>) -> Seq<char>;

/// `String::from_utf8_lossy`: its result depends on the bytes alone; well-formed UTF-8 gives
/// the text that it encodes.
#[verifier::external_body]
pub(crate) fn utf8_lossy_text(bytes: &[u8]) -> (r: String)
    ensures
        r@ == utf8_lossy(bytes@),
        vstd::utf8::valid_utf8(bytes@) ==> r@ == vstd::utf8::decode_utf8(bytes@),
{
    String::from_utf8_lossy(bytes).into_owned()
}

proof fn lemma_trim_start_white(front: Seq<char>, rest: Seq<char>)
    requires
        forall|i: int| 0 <= i < front.len() ==> white(#[trigger] front[i]),
        rest.len() == 0 || !white(rest[0]),
    ensures
        trim_start(front + rest) == rest,
    decreases front.len(),
{
    if front.len() == 0 {
        assert(front + rest =~= rest);
    } else {
        assert((front + rest)[0] == front[0]);
        assert((front + rest).drop_first() =~= front.drop_first() + rest);
        lemma_trim_start_white(front.drop_first(), rest);
    }
}

proof fn lemma_trim_end_white(rest: Seq<char>, back: Seq<char>)
    requires
        forall|i: int| 0 <= i < back.len() ==> white(#[trigger] back[i]),
        rest.len() == 0 || !white(rest.last()),
    ensures
        trim_end(rest + back) == rest,
    decreases back.len(),
{
    if back.len() == 0 {
        assert(rest + back =~= rest);
    } else {
        assert((rest + back).last() == back.last());
        assert((rest + back).drop_last() =~= rest + back.drop_last());
        lemma_trim_end_white(rest, back.drop_last());
    }
}

/// Trimming takes the white space off both ends of a text, and nothing else.
pub proof fn law_trim_takes_off_white_ends(front: Seq<char>, middle: Seq<char>, back: Seq<char>)
    requires
        forall|i: int| 0 <= i < front.len() ==> white(#[trigger] front[i]),
        forall|i: int| 0 <= i < back.len() ==> white(#[trigger] back[i]),
        middle.len() == 0 || (!white(middle[0]) && !white(middle.last())),
    ensures
        trim(front + middle + back) == middle,
{
    if middle.len() == 0 {
        assert(front + middle + back =~= (front + back) + Seq::<char>::empty());
        lemma_trim_start_white(front + back, Seq::empty());
    } else {
        assert(front + middle + back =~= front + (middle + back));
        lemma_trim_start_white(front, middle + back);
        lemma_trim_end_white(middle, back);
    }
}

/// Among the ASCII characters the space and the controls from the tab to the carriage return are
/// white, and no others.
pub proof fn law_white_ascii(c: char)
    requires
        (c as u32) < 0x80,
    ensures
        white(c) <==> (c == ' ' || c == '\t' || c == '\n' || c == '\x0b' || c == '\x0c' || c
            == '\r'),
{
}

/// A prefix can be taken off a text exactly where the text begins with it; what is left is what
/// follows.
pub proof fn law_prefix_is_taken_off(pre: Seq<char>, rest: Seq<char>, s: Seq<char>)
    ensures
        strip_prefix(pre + rest, pre) == Some(rest),
        strip_prefix(s, pre) matches Some(r) ==> s == pre + r,
{
    assert((pre + rest).subrange(0, pre.len() as int) =~= pre);
    assert((pre + rest).subrange(pre.len() as int, (pre + rest).len() as int) =~= rest);
    if let Some(r) = strip_prefix(s, pre) {
        assert(s =~= s.subrange(0, pre.len() as int) + r);
    }
}

/// A text contains a pattern exactly where something before it, the pattern and something behind
/// it make up the text.
pub proof fn law_contained_text_has_a_place(s: Seq<char>, pat: Seq<char>)
    ensures
        contains_text(s, pat) <==> exists|a: Seq<char>, b: Seq<char>| s == #[trigger] (a + pat + b),
{
    if contains_text(s, pat) {
        let i = choose|i: int| occurs_at(s, pat, i);
        let a = s.subrange(0, i);
        let b = s.subrange(i + pat.len(), s.len() as int);
        assert(s =~= a + s.subrange(i, i + pat.len()) + b);
        assert(s == a + pat + b);
    }
    if exists|a: Seq<char>, b: Seq<char>| s == #[trigger] (a + pat + b) {
        let (a, b) = choose|a: Seq<char>, b: Seq<char>| s == #[trigger] (a + pat + b);
        assert(s.subrange(a.len() as int, (a.len() + pat.len()) as int) =~= pat);
        assert(occurs_at(s, pat, a.len() as int));
    }
}

proof fn lemma_join_first(first: Seq<char>, rest: Seq<Seq<char>>, sep: Seq<char>)
    requires
        rest.len() > 0,
    ensures
        join(seq![first] + rest, sep) == first + sep + join(rest, sep),
    decreases rest.len(),
{
    let all = seq![first] + rest;
    assert(all.last() == rest.last());
    assert(all.drop_last() =~= seq![first] + rest.drop_last());
    if rest.len() == 1 {
        assert(all.drop_last() =~= seq![first]);
        assert(join(all.drop_last(), sep) == first);
        assert(join(rest, sep) == rest[0]);
    } else {
        lemma_join_first(first, rest.drop_last(), sep);
        assert(join(all, sep) =~= first + sep + join(rest, sep));
    }
}

/// The pieces of a text hold no separator, and joined by it they give the text again.
pub proof fn law_split_pieces_join(s: Seq<char>, sep: char)
    ensures
        split_on(s, sep).len() > 0,
        forall|i: int, j: int|
            0 <= i < split_on(s, sep).len() && 0 <= j < split_on(s, sep)[i].len()
                ==> #[trigger] split_on(s, sep)[i][j] != sep,
        join(split_on(s, sep), seq![sep]) == s,
    decreases s.len(),
{
    let p = find_char(s, sep);
    lemma_find_char(s, sep);
    if p != s.len() {
        let front = s.subrange(0, p);
        let rest = s.subrange(p + 1, s.len() as int);
        law_split_pieces_join(rest, sep);
        lemma_join_first(front, split_on(rest, sep), seq![sep]);
        assert(s =~= front + seq![sep] + rest);
        assert forall|i: int, j: int|
            0 <= i < split_on(s, sep).len() && 0 <= j < split_on(s, sep)[i].len() implies
            #[trigger] split_on(s, sep)[i][j] != sep by {
            if i == 0 {
                assert(split_on(s, sep)[0] == front);
            } else {
                assert(split_on(s, sep)[i] == split_on(rest, sep)[i - 1]);
            }
        }
    } else {
        assert(split_on(s, sep)[0] == s);
    }
}

/// A line ends at its line feed, or at the carriage return before that; what follows is cut up by
/// itself. The last line needs no line feed.
pub proof fn law_line_ends_at_its_break(line: Seq<char>, rest: Seq<char>)
    requires
        forall|i: int| 0 <= i < line.len() ==> line[i] != '\n',
        line.len() == 0 || line.last() != '\r',
    ensures
        lines(line + seq!['\n'] + rest) == seq![line] + lines(rest),
        lines(line + seq!['\r', '\n'] + rest) == seq![line] + lines(rest),
        line.len() > 0 ==> lines(line) == seq![line],
{
    let n = line.len() as int;
    let a = line + seq!['\n'] + rest;
    lemma_find_char_unique(a, '\n', n);
    assert(a.subrange(0, n) =~= line);
    assert(a.subrange(n + 1, a.len() as int) =~= rest);
    let b = line + seq!['\r', '\n'] + rest;
    lemma_find_char_unique(b, '\n', n + 1);
    assert(b.subrange(0, n + 1) =~= line.push('\r'));
    assert(line.push('\r').drop_last() =~= line);
    assert(b.subrange(n + 2, b.len() as int) =~= rest);
    if line.len() > 0 {
        lemma_find_char_unique(line, '\n', n);
    }
}

/// The decimal text of a number has its last digit behind that of the tenth of the number; a
/// negative number has the text of its opposite behind a minus.
pub proof fn law_decimal_appends_digits(n: nat, d: nat)
    requires
        n > 0,
        d < 10,
    ensures
        decimal((10 * n + d) as int) == decimal(n as int) + decimal(d as int),
        decimal(-(n as int)) == seq!['-'] + decimal(n as int),
        decimal(d as int).len() == 1,
        decimal(d as int)[0] as int == '0' as int + d,
{
    assert((10 * n + d) / 10 == n);
    assert((10 * n + d) % 10 == d);
    assert(digits(10 * n + d) =~= digits(n) + digits(d));
}

/// Two characters are equal but for ASCII case exactly where they are the same, or the one is a
/// capital and the other its small letter.
pub proof fn law_ascii_case(a: char, b: char)
    ensures
        ascii_lower(a) == ascii_lower(b) <==> {
            ||| a == b
            ||| 'A' <= a && a <= 'Z' && b as int == a as int + 32
            ||| 'A' <= b && b <= 'Z' && a as int == b as int + 32
        },
{
}

} // verus!
