//! Index, range and key selections over sized sequences.
use vstd::prelude::*;

verus! {

/// True when `c` is an ASCII decimal digit.
pub open spec fn is_digit(c: char) -> bool {
    '0' <= c && c <= '9'
}

/// The value of one decimal digit.
pub open spec fn digit_value(c: char) -> int {
    (c as int) - ('0' as int)
}

/// True when every character of `s` is a decimal digit.
pub open spec fn all_digits(s: Seq<char>) -> bool {
    forall|i: int| 0 <= i < s.len() ==> is_digit(#[trigger] s[i])
}

/// The number written in decimal by the digits `s`.
pub open spec fn digits_value(s: Seq<char>) -> int
    decreases s.len(),
{
    if s.len() == 0 {
        0
    } else {
        digits_value(s.drop_last()) * 10 + digit_value(s.last())
    }
}

/// The integer written by `s`: an optional `+` or `-`, then one or more digits.
pub open spec fn integer_of(s: Seq<char>) -> Option<int> {
    let signed = s.len() > 0 && (s[0] == '-' || s[0] == '+');
    let body = if signed { s.drop_first() } else { s };
    if body.len() > 0 && all_digits(body) {
        Some(if signed && s[0] == '-' { -digits_value(body) } else { digits_value(body) })
    } else {
        None
    }
}

/// The integer written by `s`, where it fits an `isize`.
pub open spec fn isize_of(s: Seq<char>) -> Option<int> {
    match integer_of(s) {
        Some(v) => if isize::MIN <= v <= isize::MAX { Some(v) } else { None },
        None => None,
    }
}

proof fn lemma_digits_value_nonneg(s: Seq<char>)
    requires
        all_digits(s),
    ensures
        digits_value(s) >= 0,
    decreases s.len(),
{
    if s.len() > 0 {
        assert(is_digit(s[s.len() - 1]));
        lemma_digits_value_nonneg(s.drop_last());
    }
}

/// Reads a signed decimal integer that fits an `isize`.
pub fn parse_isize(s: &str) -> (r: Option<isize>)
    ensures
        r.is_some() == isize_of(s@).is_some(),
        r.is_some() ==> r.unwrap() as int == isize_of(s@).unwrap(),
{
    let n = s.unicode_len();
    if n == 0 {
        return None;
    }
    let first = s.get_char(0);
    let signed = first == '-' || first == '+';
    let negative = first == '-';
    let start: usize = if signed { 1 } else { 0 };
    if start == n {
        return None;
    }
    let ghost body = if signed { s@.drop_first() } else { s@ };
    let limit: u128 = 0x8000_0000_0000_0000u128;
    let mut mag: u128 = 0;
    let mut big = false;
    let mut i: usize = start;
    proof {
        assert(body =~= s@.subrange(start as int, n as int));
        assert(body.subrange(0, 0) =~= Seq::<char>::empty());
    }
    while i < n
        invariant
            start <= i <= n,
            n == s@.len(),
            limit == 0x8000_0000_0000_0000u128,
            signed == (s@[0] == '-' || s@[0] == '+'),
            negative == (s@[0] == '-'),
            body == (if signed { s@.drop_first() } else { s@ }),
            start == (if signed { 1int } else { 0int }),
            body == s@.subrange(start as int, n as int),
            all_digits(body.subrange(0, i - start)),
            big ==> digits_value(body.subrange(0, i - start)) > limit,
            !big ==> mag == digits_value(body.subrange(0, i - start)),
            !big ==> mag <= limit,
        decreases n - i,
    {
        let c = s.get_char(i);
        if !('0' <= c && c <= '9') {
            proof {
                assert(body[i - start] == c);
                assert(!is_digit(body[i - start]));
                assert(!all_digits(body));
                assert(integer_of(s@).is_none());
            }
            return None;
        }
        let ghost prev = body.subrange(0, i - start);
        let ghost next = body.subrange(0, i + 1 - start);
        proof {
            assert(next.drop_last() =~= prev);
            assert(next.last() == c);
            assert(all_digits(next)) by {
                assert forall|j: int| 0 <= j < next.len() implies is_digit(#[trigger] next[j]) by {
                    if j < prev.len() {
                        assert(next[j] == prev[j]);
                    }
                }
            }
        }
        let d = (c as u32 - '0' as u32) as u128;
        if !big {
            mag = mag * 10 + d;
            if mag > limit {
                big = true;
            }
        }
        i = i + 1;
    }
    proof {
        assert(body.subrange(0, n - start) =~= body);
        lemma_digits_value_nonneg(body);
    }
    if big {
        return None;
    }
    if negative {
        if mag <= limit && mag <= (isize::MAX as u128) + 1 {
            Some((0i128 - mag as i128) as isize)
        } else {
            None
        }
    } else {
        if mag <= isize::MAX as u128 {
            Some(mag as isize)
        } else {
            None
        }
    }
}

/// A position in a sequence; a negative value counts back from its end.
#[derive(Clone, Copy, Debug, PartialEq, Eq, Structural)]
pub struct Index(pub isize);

/// The zero-based position that `i` stands for in a sequence of `size` items.
pub open spec fn position(i: int, size: int) -> Option<int> {
    if i >= 0 {
        Some(i)
    } else if size + i >= 0 {
        Some(size + i)
    } else {
        None
    }
}

impl Index {
    pub fn new(value: isize) -> (r: Index)
        ensures
            r.0 == value,
    {
        Index(value)
    }

    /// The position this index stands for in a sequence of `size` items.
    pub fn resolve(&self, size: usize) -> (r: Option<usize>)
        ensures
            r.is_some() == position(self.0 as int, size as int).is_some(),
            r.is_some() ==> r.unwrap() as int == position(self.0 as int, size as int).unwrap(),
    {
        if self.0 >= 0 {
            Some(self.0 as usize)
        } else if size as i128 + self.0 as i128 >= 0 {
            Some((size as i128 + self.0 as i128) as usize)
        } else {
            None
        }
    }
}

/// A contiguous window between two indexes; `inclusive` keeps the end item.
#[derive(Clone, Copy, Debug, PartialEq, Eq, Structural)]
pub struct Range {
    pub start: Index,
    pub end: Index,
    pub inclusive: bool,
}

/// The window `(start, length)` that `r` stands for in a sequence of `size`
/// items, where both ends resolve, the start does not pass the end, and the
/// window lies within the sequence.
pub open spec fn window(r: Range, size: int) -> Option<(int, int)> {
    match (position(r.start.0 as int, size), position(r.end.0 as int, size)) {
        (Some(a), Some(b)) => {
            let e = if r.inclusive { b + 1 } else { b };
            if a <= e && e <= size {
                Some((a, e - a))
            } else {
                None
            }
        },
        _ => None,
    }
}

impl Range {
    pub fn new(start: Index, end: Index, inclusive: bool) -> (r: Range)
        ensures
            r == (Range { start, end, inclusive }),
    {
        Range { start, end, inclusive }
    }

    /// The window `(start, length)` of this range in a sequence of `size` items.
    pub fn bounds(&self, size: usize) -> (r: Option<(usize, usize)>)
        ensures
            r.is_some() == window(*self, size as int).is_some(),
            r.is_some() ==> r.unwrap().0 as int == window(*self, size as int).unwrap().0
                && r.unwrap().1 as int == window(*self, size as int).unwrap().1,
    {
        match (self.start.resolve(size), self.end.resolve(size)) {
            (Some(a), Some(b)) => {
                if self.inclusive && b >= size {
                    return None;
                }
                let e = if self.inclusive { b + 1 } else { b };
                if a <= e && e <= size {
                    Some((a, e - a))
                } else {
                    None
                }
            },
            _ => None,
        }
    }
}

/// True when `k` is the position of the first `.` of `s` (its length if none).
pub open spec fn first_dot(s: Seq<char>, k: int) -> bool {
    &&& 0 <= k <= s.len()
    &&& k < s.len() ==> s[k] == '.'
    &&& forall|j: int| 0 <= j < k ==> s[j] != '.'
}

/// The range written by `s`: an optional start, then `..` (end excluded) or
/// `...` / `..=` (end included), then an optional end. An omitted start is the
/// first item; an omitted end, allowed after `..` only, is the last item.
pub open spec fn range_of(s: Seq<char>) -> Option<Range> {
    let k = choose|k: int| first_dot(s, k);
    let head = s.take(k);
    let rest = s.skip(k);
    let inclusive = rest.len() >= 3 && rest[0] == '.' && rest[1] == '.' && (rest[2] == '.'
        || rest[2] == '=');
    let exclusive = !inclusive && rest.len() >= 2 && rest[0] == '.' && rest[1] == '.';
    let tail = if inclusive { rest.skip(3) } else { rest.skip(2) };
    let start = if head.len() == 0 { Some(0int) } else { isize_of(head) };
    if !inclusive && !exclusive {
        None
    } else if start.is_none() {
        None
    } else if tail.len() == 0 {
        if inclusive {
            None
        } else {
            Some(Range { start: Index(start.unwrap() as isize), end: Index(-1isize), inclusive: true })
        }
    } else if isize_of(tail).is_some() {
        Some(
            Range {
                start: Index(start.unwrap() as isize),
                end: Index(isize_of(tail).unwrap() as isize),
                inclusive,
            },
        )
    } else {
        None
    }
}

proof fn lemma_first_dot_unique(s: Seq<char>, a: int, b: int)
    requires
        first_dot(s, a),
        first_dot(s, b),
    ensures
        a == b,
{
    if a < b {
        assert(s[a] != '.');
    } else if b < a {
        assert(s[b] != '.');
    }
}

/// Reads a range expression such as `2..5`, `..3`, `1...4`, `1..=4` or `3..`.
pub fn parse_index_range(s: &str) -> (r: Option<Range>)
    ensures
        r == range_of(s@),
{
    let n = s.unicode_len();
    let mut k: usize = 0;
    while k < n && s.get_char(k) != '.'
        invariant
            n == s@.len(),
            k <= n,
            forall|j: int| 0 <= j < k ==> s@[j] != '.',
        decreases n - k,
    {
        k = k + 1;
    }
    proof {
        assert(first_dot(s@, k as int));
        let c = choose|c: int| first_dot(s@, c);
        lemma_first_dot_unique(s@, c, k as int);
    }
    if n - k < 2 || s.get_char(k + 1) != '.' {
        return None;
    }
    let inclusive = n - k >= 3 && (s.get_char(k + 2) == '.' || s.get_char(k + 2) == '=');
    let from = if inclusive { k + 3 } else { k + 2 };
    let head = s.substring_char(0, k);
    let tail = s.substring_char(from, n);
    proof {
        assert(head@ =~= s@.take(k as int));
        assert(tail@ =~= if inclusive { s@.skip(k as int).skip(3) } else { s@.skip(k as int).skip(2) });
    }
    let start: isize;
    if k == 0 {
        start = 0;
    } else {
        match parse_isize(head) {
            Some(v) => { start = v; },
            None => { return None; },
        }
    }
    if from == n {
        if inclusive {
            None
        } else {
            Some(Range { start: Index(start), end: Index(-1), inclusive: true })
        }
    } else {
        match parse_isize(tail) {
            Some(v) => Some(Range { start: Index(start), end: Index(v), inclusive }),
            None => None,
        }
    }
}

/// A key for an associative lookup.
#[derive(Clone, Debug, PartialEq)]
pub struct Key {
    key: String,
}

impl View for Key {
    type V = Seq<char>;

    closed spec fn view(&self) -> Seq<char> {
        self.key@
    }
}

impl Key {
    pub fn new(key: String) -> (r: Key)
        ensures
            r@ == key@,
    {
        Key { key }
    }

    pub fn get(&self) -> (r: &String)
        ensures
            r@ == self@,
    {
        &self.key
    }
}

/// A filter over a sequence-like value.
#[derive(Clone, Debug, PartialEq)]
pub enum Select {
    /// Select no items.
    Nothing,
    /// Select every item.
    All,
    /// Select the single item at an index.
    Index(Index),
    /// Select a contiguous window of items.
    Range(Range),
    /// Select an item by key, which a plain sequence does not have.
    Key(Key),
}

impl Select {
    /// Reads a selection: `..` selects all, an integer one index, a range
    /// expression a window, and any other text is a key.
    pub fn from_str(data: &str) -> (r: Select)
        ensures
            data@ == seq!['.', '.'] ==> r is All,
            data@ != seq!['.', '.'] && isize_of(data@).is_some() ==> r == Select::Index(
                Index(isize_of(data@).unwrap() as isize),
            ),
            data@ != seq!['.', '.'] && isize_of(data@).is_none() && range_of(data@).is_some() ==> r
                == Select::Range(range_of(data@).unwrap()),
            data@ != seq!['.', '.'] && isize_of(data@).is_none() && range_of(data@).is_none() ==> (r
                matches Select::Key(k) && k@ == data@),
    {
        if data.unicode_len() == 2 && data.get_char(0) == '.' && data.get_char(1) == '.' {
            assert(data@ =~= seq!['.', '.']);
            return Select::All;
        }
        if let Some(index) = parse_isize(data) {
            return Select::Index(Index::new(index));
        }
        if let Some(range) = parse_index_range(data) {
            return Select::Range(range);
        }
        Select::Key(Key::new(data.to_owned()))
    }
}

/// What selection `s` takes out of `items`, a sequence of `size` items.
pub open spec fn select_spec<T>(items: Seq<T>, s: Select, size: int) -> Seq<T> {
    match s {
        Select::Nothing => Seq::empty(),
        Select::All => items,
        Select::Index(i) => match position(i.0 as int, size) {
            Some(p) => if p < size { seq![items[p]] } else { Seq::empty() },
            None => Seq::empty(),
        },
        Select::Range(r) => match window(r, size) {
            Some(w) => items.subrange(w.0, w.0 + w.1),
            None => Seq::empty(),
        },
        Select::Key(_) => Seq::empty(),
    }
}

/// Takes the items that `s` selects out of `items`, which holds `size` items.
pub fn select<T>(items: Vec<T>, s: &Select, size: usize) -> (r: Vec<T>)
    requires
        items@.len() == size,
    ensures
        r@ == select_spec(items@, *s, size as int),
{
    match s {
        Select::Nothing => Vec::new(),
        Select::All => items,
        Select::Index(i) => match i.resolve(size) {
            Some(p) => {
                if p < size {
                    let mut rest = items;
                    rest.truncate(p + 1);
                    let mut r = Vec::new();
                    match rest.pop() {
                        Some(x) => { r.push(x); },
                        None => {},
                    }
                    assert(r@ =~= select_spec(items@, *s, size as int));
                    r
                } else {
                    Vec::new()
                }
            },
            None => Vec::new(),
        },
        Select::Range(range) => match range.bounds(size) {
            Some((start, length)) => {
                let mut rest = items;
                let mut tail = rest.split_off(start);
                tail.truncate(length);
                assert(tail@ =~= select_spec(items@, *s, size as int));
                tail
            },
            None => Vec::new(),
        },
        Select::Key(_) => Vec::new(),
    }
}

/// An index selects the one item at its position, a negative index counting
/// back from the end; an index outside the sequence selects nothing.
pub proof fn lemma_index_selection<T>(items: Seq<T>, i: isize)
    ensures
        i >= 0 ==> select_spec(items, Select::Index(Index(i)), items.len() as int) == if i
            < items.len() {
            seq![items[i as int]]
        } else {
            Seq::empty()
        },
        i < 0 ==> select_spec(items, Select::Index(Index(i)), items.len() as int) == if items.len()
            + i >= 0 {
            seq![items[items.len() + i]]
        } else {
            Seq::empty()
        },
{
}

/// A range that resolves to `(start, length)` selects exactly those items, in
/// order; a range that does not resolve selects nothing.
pub proof fn lemma_range_selection<T>(items: Seq<T>, r: Range)
    ensures
        window(r, items.len() as int) matches Some(w) ==> {
            let out = select_spec(items, Select::Range(r), items.len() as int);
            &&& w.0 + w.1 <= items.len()
            &&& out.len() == w.1
            &&& forall|j: int| 0 <= j < w.1 ==> out[j] == items[w.0 + j]
        },
        window(r, items.len() as int) is None ==> select_spec(
            items,
            Select::Range(r),
            items.len() as int,
        ) == Seq::<T>::empty(),
{
}

} // verus!
