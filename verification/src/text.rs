//! Character-level text handling shared by the bot's parsers and renderers:
//! Unicode white space, trimming, line and word splitting, and the decimal
//! form of 64-bit integers.
use vstd::prelude::*;

verus! {

// ---------------------------------------------------------------------------
// Specifications
// ---------------------------------------------------------------------------

/// The characters with the Unicode `White_Space` property (what `char::is_whitespace`
/// and therefore `str::trim` and `str::split_whitespace` test).
pub open spec fn is_white_space(c: char) -> bool {
    let u = c as u32;
    ||| 0x09 <= u <= 0x0D
    ||| u == 0x20
    ||| u == 0x85
    ||| u == 0xA0
    ||| u == 0x1680
    ||| 0x2000 <= u <= 0x200A
    ||| u == 0x2028
    ||| u == 0x2029
    ||| u == 0x202F
    ||| u == 0x205F
    ||| u == 0x3000
}

/// `s` without its leading white space.
pub open spec fn trim_start(s: Seq<char>) -> Seq<char>
    decreases s.len(),
{
    if s.len() > 0 && is_white_space(s[0]) {
        trim_start(s.drop_first())
    } else {
        s
    }
}

/// `s` without its trailing white space.
pub open spec fn trim_end(s: Seq<char>) -> Seq<char>
    decreases s.len(),
{
    if s.len() > 0 && is_white_space(s.last()) {
        trim_end(s.drop_last())
    } else {
        s
    }
}

/// `s` without leading and trailing white space.
pub open spec fn trim(s: Seq<char>) -> Seq<char> {
    trim_end(trim_start(s))
}

/// `s` without one final carriage return, if it has one.
pub open spec fn strip_cr(s: Seq<char>) -> Seq<char> {
    if s.len() > 0 && s.last() == '\r' {
        s.drop_last()
    } else {
        s
    }
}

/// The lines of `cur + s`, where `cur` is a line begun but not yet ended: a line
/// ends at `'\n'`, which is dropped together with a `'\r'` just before it; a last
/// line without `'\n'` is kept as it is, and an empty one is no line at all.
pub open spec fn lines_from(s: Seq<char>, cur: Seq<char>) -> Seq<Seq<char>>
    decreases s.len(),
{
    if s.len() == 0 {
        if cur.len() > 0 {
            seq![cur]
        } else {
            seq![]
        }
    } else if s[0] == '\n' {
        seq![strip_cr(cur)] + lines_from(s.drop_first(), seq![])
    } else {
        lines_from(s.drop_first(), cur.push(s[0]))
    }
}

/// The lines of `s`, as `str::lines` yields them.
pub open spec fn lines(s: Seq<char>) -> Seq<Seq<char>> {
    lines_from(s, seq![])
}

/// The words of `cur + s`, where `cur` is a word begun but not yet ended: words are
/// the maximal runs of characters that are not white space.
pub open spec fn words_from(s: Seq<char>, cur: Seq<char>) -> Seq<Seq<char>>
    decreases s.len(),
{
    if s.len() == 0 {
        if cur.len() > 0 {
            seq![cur]
        } else {
            seq![]
        }
    } else if is_white_space(s[0]) {
        if cur.len() > 0 {
            seq![cur] + words_from(s.drop_first(), seq![])
        } else {
            words_from(s.drop_first(), seq![])
        }
    } else {
        words_from(s.drop_first(), cur.push(s[0]))
    }
}

/// The words of `s`, as `str::split_whitespace` yields them.
pub open spec fn words(s: Seq<char>) -> Seq<Seq<char>> {
    words_from(s, seq![])
}

/// The index of the first `c` in `s`, if there is one.
pub open spec fn find_char(s: Seq<char>, c: char) -> Option<nat>
    decreases s.len(),
{
    if s.len() == 0 {
        None
    } else if s[0] == c {
        Some(0)
    } else {
        match find_char(s.drop_first(), c) {
            Some(k) => Some(k + 1),
            None => None,
        }
    }
}

/// The lines `ls` joined by `'\n'` between them.
pub open spec fn join_lines(ls: Seq<Seq<char>>) -> Seq<char>
    decreases ls.len(),
{
    if ls.len() == 0 {
        seq![]
    } else if ls.len() == 1 {
        ls[0]
    } else {
        join_lines(ls.drop_last()) + seq!['\n'] + ls.last()
    }
}

/// `s` with every occurrence of the non-empty `pattern` taken out, the
/// occurrences found from the left without overlap (as `str::replace` with an
/// empty replacement does).
pub open spec fn remove_all(s: Seq<char>, pattern: Seq<char>) -> Seq<char>
    decreases s.len(),
{
    if s.len() == 0 {
        s
    } else if pattern.len() > 0 && pattern.len() <= s.len() && s.take(pattern.len() as int)
        == pattern {
        remove_all(s.skip(pattern.len() as int), pattern)
    } else {
        seq![s[0]] + remove_all(s.drop_first(), pattern)
    }
}

/// Whether `s` begins with `prefix`.
pub open spec fn has_prefix(s: Seq<char>, prefix: Seq<char>) -> bool {
    prefix.len() <= s.len() && s.take(prefix.len() as int) == prefix
}

/// Whether `s` ends with `suffix`.
pub open spec fn has_suffix(s: Seq<char>, suffix: Seq<char>) -> bool {
    suffix.len() <= s.len() && s.skip(s.len() - suffix.len()) == suffix
}

/// Whether `pattern` occurs in `s`.
pub open spec fn occurs_in(s: Seq<char>, pattern: Seq<char>) -> bool {
    exists|i: int| 0 <= i <= s.len() - pattern.len() && #[trigger] s.subrange(i, i + pattern.len()) == pattern
}

// ---------------------------------------------------------------------------
// Lemmas
// ---------------------------------------------------------------------------

/// `find_char` finds the first `c`, and finds nothing where there is none.
pub proof fn lemma_find_char(s: Seq<char>, c: char, j: int)
    requires
        0 <= j <= s.len(),
        forall|i: int| 0 <= i < j ==> #[trigger] s[i] != c,
    ensures
        j < s.len() && s[j] == c ==> find_char(s, c) == Some(j as nat),
        j == s.len() ==> find_char(s, c) is None,
    decreases j,
{
    if j > 0 {
        assert(s[0] != c);
        assert forall|i: int| 0 <= i < j - 1 implies #[trigger] s.drop_first()[i] != c by {
            assert(s.drop_first()[i] == s[i + 1]);
        }
        lemma_find_char(s.drop_first(), c, j - 1);
    }
}

/// A piece without `'\n'` followed by `'\n'` ends the line begun with `cur`.
pub proof fn lemma_lines_from_line(x: Seq<char>, rest: Seq<char>, cur: Seq<char>)
    requires
        forall|i: int| 0 <= i < x.len() ==> #[trigger] x[i] != '\n',
    ensures
        lines_from(x + seq!['\n'] + rest, cur) == seq![strip_cr(cur + x)] + lines_from(
            rest,
            seq![],
        ),
    decreases x.len(),
{
    let s = x + seq!['\n'] + rest;
    if x.len() == 0 {
        assert(s[0] == '\n');
        assert(s.drop_first() =~= rest);
        assert(cur + x =~= cur);
    } else {
        assert(s[0] == x[0]);
        assert(s.drop_first() =~= x.drop_first() + seq!['\n'] + rest);
        assert forall|i: int| 0 <= i < x.drop_first().len() implies #[trigger] x.drop_first()[i]
            != '\n' by {
            assert(x.drop_first()[i] == x[i + 1]);
        }
        lemma_lines_from_line(x.drop_first(), rest, cur.push(x[0]));
        assert(cur.push(x[0]) + x.drop_first() =~= cur + x);
    }
}

/// A text that begins and ends with characters other than white space is its own
/// trimmed form.
pub proof fn lemma_trim_unchanged(s: Seq<char>)
    requires
        s.len() > 0,
        !is_white_space(s[0]),
        !is_white_space(s.last()),
    ensures
        trim(s) == s,
{
}


/// What `trim_start` leaves is empty or begins with a character that is not
/// white space.
pub proof fn lemma_trim_start_first(s: Seq<char>)
    ensures
        trim_start(s).len() == 0 || !is_white_space(trim_start(s)[0]),
    decreases s.len(),
{
    if s.len() > 0 && is_white_space(s[0]) {
        lemma_trim_start_first(s.drop_first());
    }
}

/// What `trim_end` leaves is a prefix of `s`, empty or ending with a character
/// that is not white space.
pub proof fn lemma_trim_end_prefix(s: Seq<char>)
    ensures
        trim_end(s).len() <= s.len(),
        trim_end(s) == s.take(trim_end(s).len() as int),
        trim_end(s).len() == 0 || !is_white_space(trim_end(s).last()),
    decreases s.len(),
{
    if s.len() > 0 && is_white_space(s.last()) {
        lemma_trim_end_prefix(s.drop_last());
        assert(s.drop_last().take(trim_end(s).len() as int) =~= s.take(trim_end(s).len() as int));
    } else {
        assert(s.take(s.len() as int) =~= s);
    }
}

/// Trimming twice is trimming once.
pub proof fn lemma_trim_idempotent(s: Seq<char>)
    ensures
        trim(trim(s)) == trim(s),
{
    let t = trim_start(s);
    let r = trim_end(t);
    lemma_trim_start_first(s);
    lemma_trim_end_prefix(t);
    if r.len() > 0 {
        assert(r[0] == t[0]);
        lemma_trim_unchanged(r);
    } else {
        assert(trim_start(r) == r);
        assert(trim_end(r) == r);
    }
}

// ---------------------------------------------------------------------------
// Executable functions
// ---------------------------------------------------------------------------

/// The characters of `s`, in order.
pub fn chars_of(s: &str) -> (v: Vec<char>)
    ensures
        v@ == s@,
{
    let mut v: Vec<char> = Vec::new();
    for c in it: s.chars()
        invariant
            v@ == it.seq().take(it.index() as int),
    {
        v.push(c);
    }
    v
}

/// The string of the characters `v`, built with `FromIterator<&char> for String`.
#[verifier::external_body]
pub fn string_from_chars(v: &Vec<char>) -> (s: String)
    ensures
        s@ == v@,
{
    v.iter().collect()
}

/// Whether `c` is Unicode white space.
pub fn is_white_space_char(c: char) -> (b: bool)
    ensures
        b == is_white_space(c),
{
    let u = c as u32;
    (0x09 <= u && u <= 0x0D) || u == 0x20 || u == 0x85 || u == 0xA0 || u == 0x1680 || (0x2000
        <= u && u <= 0x200A) || u == 0x2028 || u == 0x2029 || u == 0x202F || u == 0x205F || u
        == 0x3000
}

/// The bounds of `v[lo..hi]` trimmed of white space on both ends.
pub fn trim_bounds(v: &Vec<char>, lo: usize, hi: usize) -> (r: (usize, usize))
    requires
        lo <= hi <= v@.len(),
    ensures
        lo <= r.0 <= r.1 <= hi,
        v@.subrange(r.0 as int, r.1 as int) == trim(v@.subrange(lo as int, hi as int)),
{
    let mut a = lo;
    while a < hi && is_white_space_char(v[a])
        invariant
            lo <= a <= hi <= v@.len(),
            trim_start(v@.subrange(lo as int, hi as int)) == trim_start(
                v@.subrange(a as int, hi as int),
            ),
        decreases hi - a,
    {
        assert(v@.subrange(a as int, hi as int).drop_first() =~= v@.subrange(a + 1, hi as int));
        a = a + 1;
    }
    assert(trim_start(v@.subrange(a as int, hi as int)) == v@.subrange(a as int, hi as int));
    let mut b = hi;
    while b > a && is_white_space_char(v[b - 1])
        invariant
            lo <= a <= b <= hi <= v@.len(),
            trim_end(v@.subrange(a as int, hi as int)) == trim_end(v@.subrange(a as int, b as int)),
        decreases b - a,
    {
        assert(v@.subrange(a as int, b as int).drop_last() =~= v@.subrange(a as int, b - 1));
        b = b - 1;
    }
    (a, b)
}

/// The bounds, within `v`, of the lines of `v[lo..hi]`.
pub fn line_bounds(v: &Vec<char>, lo: usize, hi: usize) -> (r: Vec<(usize, usize)>)
    requires
        lo <= hi <= v@.len(),
    ensures
        r@.len() == lines(v@.subrange(lo as int, hi as int)).len(),
        forall|j: int|
            0 <= j < r@.len() ==> lo <= (#[trigger] r@[j]).0 <= r@[j].1 <= hi && v@.subrange(
                r@[j].0 as int,
                r@[j].1 as int,
            ) == lines(v@.subrange(lo as int, hi as int))[j],
{
    let ghost whole = v@.subrange(lo as int, hi as int);
    let mut r: Vec<(usize, usize)> = Vec::new();
    let ghost mut done: Seq<Seq<char>> = seq![];
    let mut start = lo;
    let mut i = lo;
    assert(v@.subrange(lo as int, lo as int) =~= Seq::<char>::empty());
    assert(done + lines(whole) =~= lines(whole));
    while i < hi
        invariant
            lo <= start <= i <= hi <= v@.len(),
            whole == v@.subrange(lo as int, hi as int),
            lines(whole) == done + lines_from(
                v@.subrange(i as int, hi as int),
                v@.subrange(start as int, i as int),
            ),
            r@.len() == done.len(),
            forall|j: int|
                0 <= j < r@.len() ==> lo <= (#[trigger] r@[j]).0 <= r@[j].1 <= hi
                    && v@.subrange(r@[j].0 as int, r@[j].1 as int) == done[j],
        decreases hi - i,
    {
        let ghost rest = v@.subrange(i as int, hi as int);
        assert(rest.drop_first() =~= v@.subrange(i + 1, hi as int));
        assert(rest[0] == v@[i as int]);
        if v[i] == '\n' {
            let mut end = i;
            if i > start && v[i - 1] == '\r' {
                end = i - 1;
            }
            assert(v@.subrange(start as int, end as int) =~= strip_cr(
                v@.subrange(start as int, i as int),
            ));
            r.push((start, end));
            proof {
                let ghost cur = v@.subrange(start as int, i as int);
                let ghost tail = lines_from(v@.subrange(i + 1, hi as int), seq![]);
                assert(lines_from(rest, cur) == seq![strip_cr(cur)] + tail);
                assert(v@.subrange(i + 1, i + 1) =~= Seq::<char>::empty());
                assert(done + (seq![strip_cr(cur)] + tail) =~= done.push(strip_cr(cur)) + tail);
                done = done.push(strip_cr(cur));
                assert(lines(whole) =~= done + lines_from(
                    v@.subrange(i + 1, hi as int),
                    v@.subrange(i + 1, i + 1),
                ));
            }
            start = i + 1;
        } else {
            assert(v@.subrange(start as int, i + 1) =~= v@.subrange(start as int, i as int).push(
                v@[i as int],
            ));
        }
        i = i + 1;
    }
    if start < hi {
        r.push((start, hi));
        proof {
            done = done.push(v@.subrange(start as int, hi as int));
        }
    }
    assert(lines(whole) =~= done);
    r
}

/// The bounds, within `v`, of the words of `v[lo..hi]`.
pub fn word_bounds(v: &Vec<char>, lo: usize, hi: usize) -> (r: Vec<(usize, usize)>)
    requires
        lo <= hi <= v@.len(),
    ensures
        r@.len() == words(v@.subrange(lo as int, hi as int)).len(),
        forall|j: int|
            0 <= j < r@.len() ==> lo <= (#[trigger] r@[j]).0 <= r@[j].1 <= hi && v@.subrange(
                r@[j].0 as int,
                r@[j].1 as int,
            ) == words(v@.subrange(lo as int, hi as int))[j],
{
    let ghost whole = v@.subrange(lo as int, hi as int);
    let mut r: Vec<(usize, usize)> = Vec::new();
    let ghost mut done: Seq<Seq<char>> = seq![];
    let mut start = lo;
    let mut i = lo;
    assert(v@.subrange(lo as int, lo as int) =~= Seq::<char>::empty());
    assert(done + words(whole) =~= words(whole));
    while i < hi
        invariant
            lo <= start <= i <= hi <= v@.len(),
            whole == v@.subrange(lo as int, hi as int),
            words(whole) == done + words_from(
                v@.subrange(i as int, hi as int),
                v@.subrange(start as int, i as int),
            ),
            r@.len() == done.len(),
            forall|j: int|
                0 <= j < r@.len() ==> lo <= (#[trigger] r@[j]).0 <= r@[j].1 <= hi
                    && v@.subrange(r@[j].0 as int, r@[j].1 as int) == done[j],
        decreases hi - i,
    {
        let ghost rest = v@.subrange(i as int, hi as int);
        let ghost cur = v@.subrange(start as int, i as int);
        assert(rest.drop_first() =~= v@.subrange(i + 1, hi as int));
        assert(rest[0] == v@[i as int]);
        if is_white_space_char(v[i]) {
            assert(v@.subrange(i + 1, i + 1) =~= Seq::<char>::empty());
            if start < i {
                r.push((start, i));
                proof {
                    let ghost tail = words_from(v@.subrange(i + 1, hi as int), seq![]);
                    assert(words_from(rest, cur) == seq![cur] + tail);
                    assert(done + (seq![cur] + tail) =~= done.push(cur) + tail);
                    done = done.push(cur);
                }
            }
            start = i + 1;
        } else {
            assert(v@.subrange(start as int, i + 1) =~= cur.push(v@[i as int]));
        }
        i = i + 1;
    }
    if start < hi {
        r.push((start, hi));
        proof {
            done = done.push(v@.subrange(start as int, hi as int));
        }
    }
    assert(words(whole) =~= done);
    r
}

/// The index, within `v`, of the first `c` in `v[lo..hi]`, if there is one.
pub fn find_char_in(v: &Vec<char>, lo: usize, hi: usize, c: char) -> (r: Option<usize>)
    requires
        lo <= hi <= v@.len(),
    ensures
        match r {
            Some(k) => lo <= k < hi && find_char(v@.subrange(lo as int, hi as int), c) == Some(
                (k - lo) as nat,
            ),
            None => find_char(v@.subrange(lo as int, hi as int), c) is None,
        },
{
    let ghost s = v@.subrange(lo as int, hi as int);
    let mut i = lo;
    while i < hi
        invariant
            lo <= i <= hi <= v@.len(),
            s == v@.subrange(lo as int, hi as int),
            forall|j: int| 0 <= j < i - lo ==> #[trigger] s[j] != c,
        decreases hi - i,
    {
        assert(s[i - lo] == v@[i as int]);
        if v[i] == c {
            proof {
                lemma_find_char(s, c, i - lo);
            }
            return Some(i);
        }
        i = i + 1;
    }
    proof {
        lemma_find_char(s, c, i - lo);
    }
    None
}

/// Whether `v[lo..hi]` equals `w`.
pub fn range_equals(v: &Vec<char>, lo: usize, hi: usize, w: &Vec<char>) -> (b: bool)
    requires
        lo <= hi <= v@.len(),
    ensures
        b == (v@.subrange(lo as int, hi as int) == w@),
{
    if hi - lo != w.len() {
        return false;
    }
    let mut i: usize = 0;
    while i < w.len()
        invariant
            hi - lo == w@.len(),
            lo <= hi <= v@.len(),
            0 <= i <= w@.len(),
            forall|j: int| 0 <= j < i ==> v@[lo + j] == w@[j],
        decreases w@.len() - i,
    {
        if v[lo + i] != w[i] {
            assert(v@.subrange(lo as int, hi as int)[i as int] != w@[i as int]);
            return false;
        }
        i = i + 1;
    }
    assert(v@.subrange(lo as int, hi as int) =~= w@);
    true
}

/// Appends `v[lo..hi]` to `out`.
pub fn push_range(out: &mut Vec<char>, v: &Vec<char>, lo: usize, hi: usize)
    requires
        lo <= hi <= v@.len(),
    ensures
        final(out)@ == old(out)@ + v@.subrange(lo as int, hi as int),
{
    let mut i = lo;
    while i < hi
        invariant
            lo <= i <= hi <= v@.len(),
            out@ == old(out)@ + v@.subrange(lo as int, i as int),
        decreases hi - i,
    {
        out.push(v[i]);
        assert(v@.subrange(lo as int, i + 1) =~= v@.subrange(lo as int, i as int).push(v@[i as int]));
        i = i + 1;
    }
}

/// `v[lo..hi]` with every occurrence of the non-empty `pattern` taken out.
pub fn remove_all_in(v: &Vec<char>, lo: usize, hi: usize, pattern: &Vec<char>) -> (r: Vec<char>)
    requires
        lo <= hi <= v@.len(),
        pattern@.len() > 0,
    ensures
        r@ == remove_all(v@.subrange(lo as int, hi as int), pattern@),
{
    let mut out: Vec<char> = Vec::new();
    let mut i = lo;
    while i < hi
        invariant
            lo <= i <= hi <= v@.len(),
            pattern@.len() > 0,
            remove_all(v@.subrange(lo as int, hi as int), pattern@) == out@ + remove_all(
                v@.subrange(i as int, hi as int),
                pattern@,
            ),
        decreases hi - i,
    {
        let ghost rest = v@.subrange(i as int, hi as int);
        if pattern.len() <= hi - i && range_equals(v, i, i + pattern.len(), pattern) {
            assert(rest.take(pattern@.len() as int) =~= v@.subrange(i as int, i + pattern@.len()));
            assert(rest.skip(pattern@.len() as int) =~= v@.subrange(i + pattern@.len(), hi as int));
            i = i + pattern.len();
        } else {
            proof {
                if pattern@.len() <= rest.len() {
                    assert(rest.take(pattern@.len() as int) =~= v@.subrange(
                        i as int,
                        i + pattern@.len(),
                    ));
                }
            }
            assert(rest.drop_first() =~= v@.subrange(i + 1, hi as int));
            assert(out@ + (seq![rest[0]] + remove_all(rest.drop_first(), pattern@)) =~= out@.push(
                v@[i as int],
            ) + remove_all(rest.drop_first(), pattern@));
            out.push(v[i]);
            i = i + 1;
        }
    }
    assert(v@.subrange(hi as int, hi as int) =~= Seq::<char>::empty());
    assert(out@ + Seq::<char>::empty() =~= out@);
    out
}

/// Whether `w` occurs anywhere in `v`.
pub fn contains_chars(v: &Vec<char>, w: &Vec<char>) -> (b: bool)
    ensures
        b == occurs_in(v@, w@),
{
    if w.len() > v.len() {
        return false;
    }
    if w.len() == 0 {
        assert(v@.subrange(0int, 0int + w@.len()) =~= w@);
        return true;
    }
    let n = w.len();
    let vl = v.len();
    let last = vl - n;
    let mut i: usize = 0;
    while i <= last
        invariant
            n == w@.len(),
            vl == v@.len(),
            last == v@.len() - w@.len(),
            0 < w@.len() <= v@.len(),
            0 <= i <= last + 1,
            forall|j: int| 0 <= j < i ==> #[trigger] v@.subrange(j, j + w@.len()) != w@,
        decreases last + 1 - i,
    {
        assert(i + w@.len() <= v@.len());
        if range_equals(v, i, i + n, w) {
            assert(v@.subrange(i as int, i + w@.len()) == w@);
            return true;
        }
        i = i + 1;
    }
    false
}

/// Whether `w` occurs in `v` starting at index `at`.
pub fn occurs_at(v: &Vec<char>, at: usize, w: &Vec<char>) -> (b: bool)
    requires
        at <= v@.len(),
    ensures
        b == (at + w@.len() <= v@.len() && v@.subrange(at as int, at + w@.len()) == w@),
{
    if w.len() > v.len() - at {
        return false;
    }
    range_equals(v, at, at + w.len(), w)
}

} // verus!
