use vstd::prelude::*;

verus! {

/// Which characters a strip keeps at the ends of a line.
#[derive(Debug, Clone, Copy, PartialEq, Eq, Structural)]
pub enum Strip {
    /// Keep ASCII digits: strip everything around a number.
    Digits,
    /// Keep anything but whitespace: trim.
    NonSpace,
    /// Keep the characters that can stand for a board cell.
    Cells,
}

pub open spec fn is_digit(c: char) -> bool {
    '0' <= c <= '9'
}

pub open spec fn is_space(c: char) -> bool {
    c == ' ' || c == '\t' || c == '\n' || c == '\r' || c == '\x0b' || c == '\x0c'
}

pub open spec fn is_ascii_punctuation(c: char) -> bool {
    ('!' <= c <= '/') || (':' <= c <= '@') || ('[' <= c <= '`') || ('{' <= c <= '~')
}

/// Whether a strip of kind `k` keeps `c`.
pub open spec fn kept(k: Strip, c: char) -> bool {
    match k {
        Strip::Digits => is_digit(c),
        Strip::NonSpace => !is_space(c),
        Strip::Cells => is_ascii_punctuation(c) || c == 'a' || c == 's',
    }
}

/// The index of the first character from `i` on that `k` keeps, or the length.
pub open spec fn first_kept(l: Seq<char>, k: Strip, i: int) -> int
    decreases l.len() - i,
{
    if i >= l.len() || i < 0 {
        l.len() as int
    } else if kept(k, l[i]) {
        i
    } else {
        first_kept(l, k, i + 1)
    }
}

/// One past the index of the last character before `j` that `k` keeps, or 0.
pub open spec fn end_kept(l: Seq<char>, k: Strip, j: int) -> int
    decreases j,
{
    if j <= 0 {
        0
    } else if kept(k, l[j - 1]) {
        j
    } else {
        end_kept(l, k, j - 1)
    }
}

/// `l` without the characters at either end that `k` does not keep.
pub open spec fn stripped(l: Seq<char>, k: Strip) -> Seq<char> {
    let s = first_kept(l, k, 0);
    let e = end_kept(l, k, l.len() as int);
    if s < e {
        l.subrange(s, e)
    } else {
        Seq::empty()
    }
}

pub open spec fn starts_with(l: Seq<char>, p: Seq<char>) -> bool {
    p.len() <= l.len() && l.subrange(0, p.len() as int) == p
}

pub open spec fn contains(l: Seq<char>, p: Seq<char>) -> bool {
    exists|i: int| 0 <= i && i + p.len() <= l.len() && #[trigger] l.subrange(i, i + p.len()) == p
}

pub open spec fn all_digits(l: Seq<char>) -> bool {
    forall|i: int| 0 <= i < l.len() ==> is_digit(#[trigger] l[i])
}

/// The decimal value of a string of digits.
pub open spec fn decimal(l: Seq<char>) -> int
    decreases l.len(),
{
    if l.len() == 0 {
        0
    } else {
        decimal(l.drop_last()) * 10 + (l.last() as int - '0' as int)
    }
}

/// The value of a string of digits that fits an `i32`.
pub open spec fn number_of(l: Seq<char>) -> Option<i32> {
    if l.len() > 0 && all_digits(l) && decimal(l) <= i32::MAX {
        Some(decimal(l) as i32)
    } else {
        None
    }
}

/// The index of the first space at or after `i` in `l`, or the length.
pub open spec fn first_space(l: Seq<char>, i: int) -> int
    decreases l.len() - i,
{
    if i >= l.len() || i < 0 {
        l.len() as int
    } else if l[i] == ' ' {
        i
    } else {
        first_space(l, i + 1)
    }
}

/// The two numbers of a size line such as `Anfield 20 15:` or `Piece 2 3:`:
/// the line stripped down to its digits is split at its first space, and
/// both sides must be numbers.
pub open spec fn size_of(l: Seq<char>) -> Option<(i32, i32)> {
    let t = stripped(l, Strip::Digits);
    let k = first_space(t, 0);
    if k < t.len() {
        match (number_of(t.subrange(0, k)), number_of(t.subrange(k + 1, t.len() as int))) {
            (Some(a), Some(b)) => Some((a, b)),
            _ => None,
        }
    } else {
        None
    }
}

/// Whether a strip of kind `k` keeps `c`.
pub fn keeps(k: Strip, c: char) -> (r: bool)
    ensures
        r == kept(k, c),
{
    match k {
        Strip::Digits => '0' <= c && c <= '9',
        Strip::NonSpace => !(c == ' ' || c == '\t' || c == '\n' || c == '\r' || c == '\x0b' || c
            == '\x0c'),
        Strip::Cells => ('!' <= c && c <= '/') || (':' <= c && c <= '@') || ('[' <= c && c <= '`')
            || ('{' <= c && c <= '~') || c == 'a' || c == 's',
    }
}

proof fn lemma_first_kept_skip(l: Seq<char>, k: Strip, i: int, j: int)
    requires
        0 <= i <= j <= l.len(),
        forall|m: int| i <= m < j ==> !kept(k, #[trigger] l[m]),
    ensures
        first_kept(l, k, i) == first_kept(l, k, j),
    decreases j - i,
{
    if i < j {
        lemma_first_kept_skip(l, k, i + 1, j);
    }
}

/// `l` without the characters at either end that `k` does not keep.
pub fn strip(l: &Vec<char>, k: Strip) -> (r: Vec<char>)
    ensures
        r@ == stripped(l@, k),
{
    let n = l.len();
    let mut s: usize = 0;
    while s < n && !keeps(k, l[s])
        invariant
            s <= n == l@.len(),
            forall|m: int| 0 <= m < s ==> !kept(k, #[trigger] l@[m]),
        decreases n - s,
    {
        s = s + 1;
    }
    proof {
        lemma_first_kept_skip(l@, k, 0, s as int);
    }
    let mut e: usize = n;
    while e > 0 && !keeps(k, l[e - 1])
        invariant
            e <= n == l@.len(),
            end_kept(l@, k, n as int) == end_kept(l@, k, e as int),
        decreases e,
    {
        e = e - 1;
    }
    let mut out: Vec<char> = Vec::new();
    if s < e {
        let mut i: usize = s;
        while i < e
            invariant
                s <= i <= e <= n == l@.len(),
                out@ == l@.subrange(s as int, i as int),
            decreases e - i,
        {
            out.push(l[i]);
            i = i + 1;
        }
    }
    out
}

/// Whether `l` begins with `p`.
pub fn has_prefix(l: &Vec<char>, p: &Vec<char>) -> (r: bool)
    ensures
        r == starts_with(l@, p@),
{
    if p.len() > l.len() {
        return false;
    }
    let mut i: usize = 0;
    while i < p.len()
        invariant
            p@.len() <= l@.len(),
            i <= p@.len(),
            forall|m: int| 0 <= m < i ==> l@[m] == p@[m],
        decreases p@.len() - i,
    {
        if l[i] != p[i] {
            assert(l@.subrange(0, p@.len() as int)[i as int] != p@[i as int]);
            return false;
        }
        i = i + 1;
    }
    assert(l@.subrange(0, p@.len() as int) =~= p@);
    true
}

/// Whether `p` occurs in `l`.
pub fn has_infix(l: &Vec<char>, p: &Vec<char>) -> (r: bool)
    ensures
        r == contains(l@, p@),
{
    if p.len() > l.len() {
        return false;
    }
    if p.len() == 0 {
        assert(contains(l@, p@)) by {
            assert(l@.subrange(0int, 0int + p@.len()) =~= p@);
        }
        return true;
    }
    let last = l.len() - p.len();
    let mut i: usize = 0;
    while i <= last
        invariant
            0 < p@.len() <= l@.len() <= usize::MAX,
            last == l@.len() - p@.len(),
            forall|m: int| 0 <= m < i ==> #[trigger] l@.subrange(m, m + p@.len()) != p@,
        decreases last + 1 - i,
    {
        let mut j: usize = 0;
        let mut same = true;
        while j < p.len()
            invariant
                0 < p@.len() <= l@.len() <= usize::MAX,
                last == l@.len() - p@.len(),
                i <= last,
                j <= p@.len(),
                same == forall|m: int| 0 <= m < j ==> l@[i + m] == p@[m],
            decreases p@.len() - j,
        {
            if l[i + j] != p[j] {
                same = false;
            }
            j = j + 1;
        }
        if same {
            assert(l@.subrange(i as int, i + p@.len()) =~= p@);
            return true;
        }
        assert(l@.subrange(i as int, i + p@.len()) != p@) by {
            let m = choose|m: int| 0 <= m < p@.len() && l@[i + m] != p@[m];
            assert(l@.subrange(i as int, i + p@.len())[m] != p@[m]);
        }
        i = i + 1;
    }
    false
}

proof fn lemma_decimal_grows(l: Seq<char>, j: int)
    requires
        0 <= j <= l.len(),
        all_digits(l),
    ensures
        decimal(l.subrange(0, j)) <= decimal(l),
        0 <= decimal(l.subrange(0, j)),
    decreases l.len() - j,
{
    if j < l.len() {
        lemma_decimal_grows(l, j + 1);
        assert(l.subrange(0, j + 1).drop_last() =~= l.subrange(0, j));
    } else {
        assert(l.subrange(0, j) =~= l);
    }
    lemma_decimal_nonneg(l.subrange(0, j));
}

proof fn lemma_decimal_nonneg(l: Seq<char>)
    requires
        all_digits(l),
    ensures
        0 <= decimal(l),
    decreases l.len(),
{
    if l.len() > 0 {
        assert(all_digits(l.drop_last()));
        lemma_decimal_nonneg(l.drop_last());
    }
}

/// The numbers of a size line are never negative.
pub proof fn lemma_size_nonneg(l: Seq<char>)
    ensures
        size_of(l) matches Some((a, b)) ==> a >= 0 && b >= 0,
{
    let t = stripped(l, Strip::Digits);
    let k = first_space(t, 0);
    if k < t.len() {
        let a = t.subrange(0, k);
        let b = t.subrange(k + 1, t.len() as int);
        if all_digits(a) {
            lemma_decimal_nonneg(a);
        }
        if all_digits(b) {
            lemma_decimal_nonneg(b);
        }
    }
}

/// The number written by `l[from..to]`, if it is one and fits an `i32`.
pub fn number(l: &Vec<char>, from: usize, to: usize) -> (r: Option<i32>)
    requires
        from <= to <= l@.len(),
    ensures
        r == number_of(l@.subrange(from as int, to as int)),
{
    let ghost t = l@.subrange(from as int, to as int);
    if from == to {
        return None;
    }
    let mut v: u64 = 0;
    let mut i: usize = from;
    while i < to
        invariant
            from <= i <= to <= l@.len(),
            t == l@.subrange(from as int, to as int),
            forall|m: int| from <= m < i ==> is_digit(#[trigger] l@[m]),
            v == decimal(t.subrange(0, i - from)),
            v <= i32::MAX,
        decreases to - i,
    {
        let c = l[i];
        if !('0' <= c && c <= '9') {
            assert(!is_digit(t[i - from]));
            return None;
        }
        assert(t.subrange(0, i - from + 1).drop_last() =~= t.subrange(0, i - from));
        v = v * 10 + (c as u64 - '0' as u64);
        if v > i32::MAX as u64 {
            proof {
                if all_digits(t) {
                    lemma_decimal_grows(t, i - from + 1);
                }
            }
            return None;
        }
        i = i + 1;
    }
    assert(t.subrange(0, i - from) =~= t);
    Some(v as i32)
}

/// The two numbers of a size line, as `size_of` says.
pub fn size_line(l: &Vec<char>) -> (r: Option<(i32, i32)>)
    ensures
        r == size_of(l@),
{
    let t = strip(l, Strip::Digits);
    let mut k: usize = 0;
    while k < t.len() && t[k] != ' '
        invariant
            k <= t@.len(),
            first_space(t@, 0) == first_space(t@, k as int),
        decreases t@.len() - k,
    {
        k = k + 1;
    }
    if k >= t.len() {
        return None;
    }
    let a = number(&t, 0, k);
    let b = number(&t, k + 1, t.len());
    match (a, b) {
        (Some(a), Some(b)) => Some((a, b)),
        _ => None,
    }
}

/// The characters of `s`.
pub fn chars_of(s: &str) -> (r: Vec<char>)
    ensures
        r@ == s@,
{
    let mut out: Vec<char> = Vec::new();
    for c in it: s.chars()
        invariant
            out@ == it.seq().take(it.index() as int),
    {
        out.push(c);
    }
    out
}

} // verus!
