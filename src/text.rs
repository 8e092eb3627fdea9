//! Character-level building blocks: trimming, splitting and comparing text.
//!
//! Everything here works on the `char` view of a string, so the specs speak of
//! `Seq<char>` and the executable functions of windows `[lo, hi)` of a `&str`.
use vstd::prelude::*;

verus! {

/// The Unicode `White_Space` property, as `char::is_whitespace` reports it.
pub open spec fn is_space(c: char) -> bool {
    let n = c as u32;
    (9 <= n && n <= 13) || n == 0x20 || n == 0x85 || n == 0xa0 || n == 0x1680 || (0x2000 <= n
        && n <= 0x200a) || n == 0x2028 || n == 0x2029 || n == 0x202f || n == 0x205f || n == 0x3000
}

/// A set of characters that a trim or a split is made on.
#[derive(Clone, Copy)]
pub enum CharClass {
    Space,
    Is(char),
    /// The characters that may close a table name in SQL: `,`, `;` and `)`.
    NameEnd,
}

impl CharClass {
    pub open spec fn holds(self, c: char) -> bool {
        match self {
            CharClass::Space => is_space(c),
            CharClass::Is(x) => c == x,
            CharClass::NameEnd => c == ',' || c == ';' || c == ')',
        }
    }

    pub fn contains(&self, c: char) -> (r: bool)
        ensures
            r == self.holds(c),
    {
        match self {
            CharClass::Space => {
                let n = c as u32;
                (9 <= n && n <= 13) || n == 0x20 || n == 0x85 || n == 0xa0 || n == 0x1680 || (0x2000
                    <= n && n <= 0x200a) || n == 0x2028 || n == 0x2029 || n == 0x202f || n
                    == 0x205f || n == 0x3000
            },
            CharClass::Is(x) => c == *x,
            CharClass::NameEnd => c == ',' || c == ';' || c == ')',
        }
    }
}

/// `s` without the leading characters of class `k`.
pub open spec fn strip_front(s: Seq<char>, k: CharClass) -> Seq<char>
    decreases s.len(),
{
    if s.len() > 0 && k.holds(s[0]) {
        strip_front(s.drop_first(), k)
    } else {
        s
    }
}

/// `s` without the trailing characters of class `k`.
pub open spec fn strip_back(s: Seq<char>, k: CharClass) -> Seq<char>
    decreases s.len(),
{
    if s.len() > 0 && k.holds(s.last()) {
        strip_back(s.drop_last(), k)
    } else {
        s
    }
}

/// `s` without the characters of class `k` at either end.
pub open spec fn strip_both(s: Seq<char>, k: CharClass) -> Seq<char> {
    strip_back(strip_front(s, k), k)
}

/// `s` without white space at either end.
pub open spec fn trim(s: Seq<char>) -> Seq<char> {
    strip_both(s, CharClass::Space)
}

/// `s` with every leading copy of the non-empty `p` removed.
pub open spec fn strip_prefixes(s: Seq<char>, p: Seq<char>) -> Seq<char>
    decreases s.len(),
{
    if p.len() > 0 && p.len() <= s.len() && s.subrange(0, p.len() as int) == p {
        strip_prefixes(s.subrange(p.len() as int, s.len() as int), p)
    } else {
        s
    }
}

/// `s` with every trailing copy of the non-empty `p` removed.
pub open spec fn strip_suffixes(s: Seq<char>, p: Seq<char>) -> Seq<char>
    decreases s.len(),
{
    if p.len() > 0 && p.len() <= s.len() && s.subrange(s.len() - p.len(), s.len() as int) == p {
        strip_suffixes(s.subrange(0, s.len() - p.len()), p)
    } else {
        s
    }
}

/// The pieces of `s` between the characters of class `k`, empty ones included:
/// `n` separators give `n + 1` pieces.
pub open spec fn split_by(s: Seq<char>, k: CharClass) -> Seq<Seq<char>>
    decreases s.len(),
{
    if s.len() == 0 {
        seq![Seq::empty()]
    } else {
        let parts = split_by(s.drop_last(), k);
        if k.holds(s.last()) {
            parts.push(Seq::empty())
        } else {
            parts.update(parts.len() - 1, parts.last().push(s.last()))
        }
    }
}

/// The white-space separated words of `s`.
pub open spec fn words(s: Seq<char>) -> Seq<Seq<char>> {
    split_by(s, CharClass::Space).filter(nonempty())
}

/// The test that keeps a word.
pub open spec fn nonempty() -> spec_fn(Seq<char>) -> bool {
    |w: Seq<char>| w.len() > 0
}

/// What follows the last `c` in `s` (all of `s` where no `c` occurs).
pub open spec fn after_last(s: Seq<char>, c: char) -> Seq<char>
    decreases s.len(),
{
    if s.len() == 0 {
        s
    } else if s.last() == c {
        Seq::empty()
    } else {
        after_last(s.drop_last(), c).push(s.last())
    }
}

/// A name for what `str::to_lowercase` makes of a text.
pub uninterp spec fn lower_of(s: Seq<char>) -> Seq<char>;

/// Relies on `str::to_lowercase`: its result depends on the characters alone.
#[verifier::external_body]
pub(crate) fn lowercase(s: &str) -> (r: String)
    ensures
        r@ == lower_of(s@),
{
    s.to_lowercase()
}

/// The code of `c` once an ASCII letter is put in lower case.
pub open spec fn ascii_lower(c: char) -> int {
    if 'A' <= c && c <= 'Z' {
        (c as u32) + 32
    } else {
        (c as u32) as int
    }
}

/// Equal up to the case of ASCII letters.
pub open spec fn eq_ascii_nocase(a: Seq<char>, b: Seq<char>) -> bool {
    a.len() == b.len() && forall|i: int| 0 <= i < a.len() ==> ascii_lower(a[i]) == ascii_lower(b[i])
}

/// The views of a sequence of strings.
pub open spec fn views(v: Seq<String>) -> Seq<Seq<char>> {
    v.map_values(|x: String| x@)
}

/// The first index at or after `lo` in `s` whose character is not of class `k`
/// (or `hi`): the window `[r, hi)` is `[lo, hi)` with its front stripped.
pub fn skip_front(s: &str, lo: usize, hi: usize, k: CharClass) -> (r: usize)
    requires
        lo <= hi <= s@.len(),
    ensures
        lo <= r <= hi,
        s@.subrange(r as int, hi as int) == strip_front(s@.subrange(lo as int, hi as int), k),
{
    let mut i: usize = lo;
    while i < hi
        invariant
            lo <= i <= hi,
            hi <= s@.len(),
            strip_front(s@.subrange(i as int, hi as int), k) == strip_front(
                s@.subrange(lo as int, hi as int),
                k,
            ),
        decreases hi - i,
    {
        let c = s.get_char(i);
        if !k.contains(c) {
            return i;
        }
        assert(s@.subrange(i as int, hi as int).drop_first() =~= s@.subrange(i + 1, hi as int));
        i = i + 1;
    }
    assert(s@.subrange(i as int, hi as int) =~= Seq::<char>::empty());
    i
}

/// The window `[lo, r)` is `[lo, hi)` with its back stripped.
pub fn skip_back(s: &str, lo: usize, hi: usize, k: CharClass) -> (r: usize)
    requires
        lo <= hi <= s@.len(),
    ensures
        lo <= r <= hi,
        s@.subrange(lo as int, r as int) == strip_back(s@.subrange(lo as int, hi as int), k),
{
    let mut j: usize = hi;
    while j > lo
        invariant
            lo <= j <= hi,
            hi <= s@.len(),
            strip_back(s@.subrange(lo as int, j as int), k) == strip_back(
                s@.subrange(lo as int, hi as int),
                k,
            ),
        decreases j - lo,
    {
        let c = s.get_char(j - 1);
        if !k.contains(c) {
            return j;
        }
        assert(s@.subrange(lo as int, j as int).drop_last() =~= s@.subrange(lo as int, j - 1));
        j = j - 1;
    }
    assert(s@.subrange(lo as int, j as int) =~= Seq::<char>::empty());
    j
}

/// The window `[lo, hi)` stripped of the characters of class `k` at both ends.
pub fn skip_both(s: &str, lo: usize, hi: usize, k: CharClass) -> (r: (usize, usize))
    requires
        lo <= hi <= s@.len(),
    ensures
        lo <= r.0 <= r.1 <= hi,
        s@.subrange(r.0 as int, r.1 as int) == strip_both(s@.subrange(lo as int, hi as int), k),
{
    let a = skip_front(s, lo, hi, k);
    let b = skip_back(s, a, hi, k);
    (a, b)
}

/// The window `[r, hi)` is what follows the last `c` in the window `[lo, hi)`.
pub fn skip_after_last(s: &str, lo: usize, hi: usize, c: char) -> (r: usize)
    requires
        lo <= hi <= s@.len(),
    ensures
        lo <= r <= hi,
        s@.subrange(r as int, hi as int) == after_last(s@.subrange(lo as int, hi as int), c),
{
    let mut j: usize = hi;
    while j > lo
        invariant
            lo <= j <= hi,
            hi <= s@.len(),
            after_last(s@.subrange(lo as int, hi as int), c) == after_last(
                s@.subrange(lo as int, j as int),
                c,
            ) + s@.subrange(j as int, hi as int),
        decreases j - lo,
    {
        let x = s.get_char(j - 1);
        let ghost w = s@.subrange(lo as int, j as int);
        assert(w.last() == x);
        if x == c {
            assert(s@.subrange(j as int, hi as int) =~= Seq::<char>::empty() + s@.subrange(
                j as int,
                hi as int,
            ));
            return j;
        }
        assert(w.drop_last() =~= s@.subrange(lo as int, j - 1));
        let ghost a = after_last(s@.subrange(lo as int, j - 1), c);
        assert(a.push(x) + s@.subrange(j as int, hi as int) =~= a + s@.subrange(j - 1, hi as int));
        j = j - 1;
    }
    assert(s@.subrange(lo as int, j as int) =~= Seq::<char>::empty());
    assert(s@.subrange(j as int, hi as int) =~= Seq::<char>::empty() + s@.subrange(
        j as int,
        hi as int,
    ));
    j
}

/// Whether the window `[lo, hi)` of `s` is `p`.
pub fn window_is(s: &str, lo: usize, hi: usize, p: &str) -> (r: bool)
    requires
        lo <= hi <= s@.len(),
    ensures
        r == (s@.subrange(lo as int, hi as int) == p@),
{
    let n = p.unicode_len();
    if hi - lo != n {
        return false;
    }
    let mut i: usize = 0;
    while i < n
        invariant
            0 <= i <= n,
            n == p@.len(),
            hi - lo == n,
            lo <= hi <= s@.len(),
            forall|j: int| 0 <= j < i ==> s@[lo + j] == p@[j],
        decreases n - i,
    {
        if s.get_char(lo + i) != p.get_char(i) {
            assert(s@.subrange(lo as int, hi as int)[i as int] != p@[i as int]);
            return false;
        }
        i = i + 1;
    }
    assert(s@.subrange(lo as int, hi as int) =~= p@);
    true
}

/// Whether `a` and `b` hold the same characters.
pub fn same_text(a: &str, b: &str) -> (r: bool)
    ensures
        r == (a@ == b@),
{
    let n = a.unicode_len();
    proof {
        assert(a@.subrange(0, n as int) =~= a@);
    }
    window_is(a, 0, n, b)
}

/// The window `[lo, r)` is `[lo, hi)` without every trailing copy of `p`.
pub fn skip_suffixes(s: &str, lo: usize, hi: usize, p: &str) -> (r: usize)
    requires
        lo <= hi <= s@.len(),
    ensures
        lo <= r <= hi,
        s@.subrange(lo as int, r as int) == strip_suffixes(s@.subrange(lo as int, hi as int), p@),
{
    let n = p.unicode_len();
    let mut j: usize = hi;
    while n > 0 && j - lo >= n
        invariant
            lo <= j <= hi,
            hi <= s@.len(),
            n == p@.len(),
            strip_suffixes(s@.subrange(lo as int, j as int), p@) == strip_suffixes(
                s@.subrange(lo as int, hi as int),
                p@,
            ),
        decreases j - lo,
    {
        let ghost w = s@.subrange(lo as int, j as int);
        if !window_is(s, j - n, j, p) {
            assert(w.subrange(w.len() - n, w.len() as int) =~= s@.subrange(j - n, j as int));
            return j;
        }
        assert(w.subrange(w.len() - n, w.len() as int) =~= s@.subrange(j - n, j as int));
        assert(w.subrange(0, w.len() - n) =~= s@.subrange(lo as int, j - n));
        j = j - n;
    }
    j
}

/// The window `[r, hi)` is `[lo, hi)` without every leading copy of `p`.
pub fn skip_prefixes(s: &str, lo: usize, hi: usize, p: &str) -> (r: usize)
    requires
        lo <= hi <= s@.len(),
    ensures
        lo <= r <= hi,
        s@.subrange(r as int, hi as int) == strip_prefixes(s@.subrange(lo as int, hi as int), p@),
{
    let n = p.unicode_len();
    let mut i: usize = lo;
    while n > 0 && hi - i >= n
        invariant
            lo <= i <= hi,
            hi <= s@.len(),
            n == p@.len(),
            strip_prefixes(s@.subrange(i as int, hi as int), p@) == strip_prefixes(
                s@.subrange(lo as int, hi as int),
                p@,
            ),
        decreases hi - i,
    {
        let ghost w = s@.subrange(i as int, hi as int);
        if !window_is(s, i, i + n, p) {
            assert(w.subrange(0, n as int) =~= s@.subrange(i as int, i + n));
            return i;
        }
        assert(w.subrange(0, n as int) =~= s@.subrange(i as int, i + n));
        assert(w.subrange(n as int, w.len() as int) =~= s@.subrange(i + n, hi as int));
        i = i + n;
    }
    i
}

/// Equality up to the case of ASCII letters, as `str::eq_ignore_ascii_case`.
pub fn eq_ignore_ascii_case(a: &str, b: &str) -> (r: bool)
    ensures
        r == eq_ascii_nocase(a@, b@),
{
    let n = a.unicode_len();
    if n != b.unicode_len() {
        return false;
    }
    let mut i: usize = 0;
    while i < n
        invariant
            0 <= i <= n,
            n == a@.len(),
            n == b@.len(),
            forall|j: int| 0 <= j < i ==> ascii_lower(a@[j]) == ascii_lower(b@[j]),
        decreases n - i,
    {
        let x = a.get_char(i);
        let y = b.get_char(i);
        let lx: u32 = if 'A' <= x && x <= 'Z' {
            (x as u32) + 32
        } else {
            x as u32
        };
        let ly: u32 = if 'A' <= y && y <= 'Z' {
            (y as u32) + 32
        } else {
            y as u32
        };
        if lx != ly {
            return false;
        }
        i = i + 1;
    }
    true
}

/// The pieces of `s` between the characters of class `k`, as `str::split`.
pub fn split_on(s: &str, k: CharClass) -> (r: Vec<String>)
    ensures
        views(r@) == split_by(s@, k),
{
    let n = s.unicode_len();
    let mut parts: Vec<String> = Vec::new();
    let mut start: usize = 0;
    let mut i: usize = 0;
    assert(s@.subrange(0, 0) =~= Seq::<char>::empty());
    assert(views(parts@).push(s@.subrange(0, 0)) =~= seq![Seq::<char>::empty()]);
    while i < n
        invariant
            0 <= start <= i <= n,
            n == s@.len(),
            views(parts@).push(s@.subrange(start as int, i as int)) == split_by(
                s@.subrange(0, i as int),
                k,
            ),
        decreases n - i,
    {
        let c = s.get_char(i);
        let ghost before = s@.subrange(0, i as int);
        let ghost after = s@.subrange(0, i + 1);
        assert(after.drop_last() =~= before);
        assert(after.last() == c);
        if k.contains(c) {
            let ghost prev = parts@;
            let piece = String::from_str(s.substring_char(start, i));
            parts.push(piece);
            assert(views(parts@) =~= views(prev).push(s@.subrange(start as int, i as int)));
            start = i + 1;
            assert(s@.subrange(start as int, i + 1) =~= Seq::<char>::empty());
        } else {
            assert(s@.subrange(start as int, i + 1) =~= s@.subrange(start as int, i as int).push(c));
        }
        i = i + 1;
    }
    let ghost prev = parts@;
    let last = String::from_str(s.substring_char(start, n));
    parts.push(last);
    assert(views(parts@) =~= views(prev).push(s@.subrange(start as int, n as int)));
    assert(s@.subrange(0, n as int) =~= s@);
    parts
}

} // verus!
