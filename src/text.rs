use vstd::prelude::*;

verus! {

/// Appends the characters of `s` to `out`.
pub fn push_str(out: &mut Vec<char>, s: &str)
    ensures
        final(out)@ == old(out)@ + s@,
{
    let n = s.unicode_len();
    let mut i: usize = 0;
    while i < n
        invariant
            n == s@.len(),
            i <= n,
            out@ == old(out)@ + s@.subrange(0, i as int),
        decreases n - i,
    {
        out.push(s.get_char(i));
        i = i + 1;
        assert(s@.subrange(0, i as int) == s@.subrange(0, i - 1) + seq![s@[i - 1]]);
    }
    assert(s@.subrange(0, n as int) == s@);
}

/// Appends `n` copies of `c` to `out`.
pub fn push_repeat(out: &mut Vec<char>, c: char, n: usize)
    ensures
        final(out)@ == old(out)@ + Seq::new(n as nat, |_i: int| c),
{
    let mut i: usize = 0;
    while i < n
        invariant
            i <= n,
            out@ == old(out)@ + Seq::new(i as nat, |_i: int| c),
        decreases n - i,
    {
        out.push(c);
        i = i + 1;
        assert(Seq::new(i as nat, |_i: int| c) == Seq::new((i - 1) as nat, |_i: int| c).push(c));
    }
}

/// The characters of `s`.
pub fn chars_of(s: &str) -> (r: Vec<char>)
    ensures
        r@ == s@,
{
    let mut out: Vec<char> = Vec::new();
    push_str(&mut out, s);
    out
}

/// Relies on `String: FromIterator<&char>`: the string holds the characters in order.
#[verifier::external_body]
pub fn string_of(chars: &[char]) -> (r: String)
    ensures
        r@ == chars@,
{
    chars.iter().collect()
}

/// White space as the request parsers skip it.
pub open spec fn blank_char(c: char) -> bool {
    c == ' ' || c == '\t' || c == '\n' || c == '\r'
}

/// `s` without its leading white space.
pub open spec fn trim_start(s: Seq<char>) -> Seq<char>
    decreases s.len(),
{
    if s.len() > 0 && blank_char(s[0]) {
        trim_start(s.drop_first())
    } else {
        s
    }
}

/// `s` without its trailing white space.
pub open spec fn trim_end(s: Seq<char>) -> Seq<char>
    decreases s.len(),
{
    if s.len() > 0 && blank_char(s.last()) {
        trim_end(s.drop_last())
    } else {
        s
    }
}

/// `s` without white space at either end.
pub open spec fn trim(s: Seq<char>) -> Seq<char> {
    trim_end(trim_start(s))
}

/// The first index of `c` in `s`.
pub open spec fn index_of(s: Seq<char>, c: char) -> Option<int>
    decreases s.len(),
{
    if s.len() == 0 {
        None
    } else if s[0] == c {
        Some(0)
    } else {
        match index_of(s.drop_first(), c) {
            Some(i) => Some(i + 1),
            None => None,
        }
    }
}

/// `s` cut at its first `c`, both sides trimmed; all of `s`, trimmed, and nothing where
/// `c` does not occur.
pub open spec fn split_once(s: Seq<char>, c: char) -> (Seq<char>, Seq<char>) {
    match index_of(s, c) {
        Some(i) => (trim(s.take(i)), trim(s.skip(i + 1))),
        None => (trim(s), seq![]),
    }
}

/// `s` cut at its first `c`, the left side kept as it is and the right side starting
/// with the `c`; all of `s` and nothing where `c` does not occur.
pub open spec fn split_at_first(s: Seq<char>, c: char) -> (Seq<char>, Seq<char>) {
    match index_of(s, c) {
        Some(i) => (s.take(i), s.skip(i)),
        None => (s, seq![]),
    }
}

/// The value of the decimal digits `s`, read from the left.
pub open spec fn digits_value(s: Seq<char>) -> nat
    decreases s.len(),
{
    if s.len() == 0 {
        0
    } else {
        digits_value(s.drop_last()) * 10 + (s.last() as nat - '0' as nat) as nat
    }
}

pub open spec fn is_digit(c: char) -> bool {
    '0' <= c && c <= '9'
}

/// The number that `s` spells, as `usize::from_str` reads it: an optional `+`, then one
/// or more decimal digits, with a value that fits in a `usize`.
pub open spec fn decimal(s: Seq<char>) -> Option<usize> {
    if unsigned_part(s).len() > 0 && all_digits(unsigned_part(s)) && digits_value(
        unsigned_part(s),
    ) <= usize::MAX {
        Some(digits_value(unsigned_part(s)) as usize)
    } else {
        None
    }
}

/// `s` without a leading `+`.
pub open spec fn unsigned_part(s: Seq<char>) -> Seq<char> {
    if s.len() > 0 && s[0] == '+' {
        s.drop_first()
    } else {
        s
    }
}

pub open spec fn all_digits(d: Seq<char>) -> bool {
    forall|i: int| 0 <= i < d.len() ==> #[trigger] is_digit(d[i])
}

/// The characters `lo..hi` of `v`.
pub fn sub_chars(v: &Vec<char>, lo: usize, hi: usize) -> (r: Vec<char>)
    requires
        lo <= hi <= v@.len(),
    ensures
        r@ == v@.subrange(lo as int, hi as int),
{
    let mut out: Vec<char> = Vec::new();
    let mut i: usize = lo;
    while i < hi
        invariant
            lo <= i <= hi <= v@.len(),
            out@ == v@.subrange(lo as int, i as int),
        decreases hi - i,
    {
        out.push(v[i]);
        i = i + 1;
        assert(out@ == v@.subrange(lo as int, i as int));
    }
    out
}

/// `v` without white space at either end.
pub fn trimmed(v: &Vec<char>) -> (r: Vec<char>)
    ensures
        r@ == trim(v@),
{
    let mut lo: usize = 0;
    let len = v.len();
    assert(v@.subrange(0, len as int) == v@);
    while lo < len && (v[lo] == ' ' || v[lo] == '\t' || v[lo] == '\n' || v[lo] == '\r')
        invariant
            lo <= len == v@.len(),
            trim_start(v@) == trim_start(v@.subrange(lo as int, len as int)),
        decreases len - lo,
    {
        assert(v@.subrange(lo as int, len as int).drop_first() == v@.subrange(lo + 1, len as int));
        lo = lo + 1;
    }
    let mut hi: usize = len;
    assert(trim_start(v@.subrange(lo as int, len as int)) == v@.subrange(lo as int, len as int));
    while hi > lo && (v[hi - 1] == ' ' || v[hi - 1] == '\t' || v[hi - 1] == '\n' || v[hi - 1]
        == '\r')
        invariant
            lo <= hi <= len == v@.len(),
            trim(v@) == trim_end(v@.subrange(lo as int, hi as int)),
        decreases hi - lo,
    {
        assert(v@.subrange(lo as int, hi as int).drop_last() == v@.subrange(lo as int, hi - 1));
        hi = hi - 1;
    }
    sub_chars(v, lo, hi)
}

/// The first index of `c` in `v`.
pub fn position(v: &Vec<char>, c: char) -> (r: Option<usize>)
    ensures
        match index_of(v@, c) {
            Some(i) => r matches Some(x) && x as int == i && 0 <= i < v@.len(),
            None => r is None,
        },
{
    let mut i: usize = 0;
    let len = v.len();
    while i < len
        invariant
            i <= len == v@.len(),
            forall|j: int| 0 <= j < i ==> v@[j] != c,
        decreases len - i,
    {
        if v[i] == c {
            proof {
                lemma_index_of_first(v@, c, i as int);
            }
            return Some(i);
        }
        i = i + 1;
    }
    proof {
        lemma_index_of_none(v@, c);
    }
    None
}

/// The first occurrence of `c` is where it occurs with none before.
proof fn lemma_index_of_first(s: Seq<char>, c: char, i: int)
    requires
        0 <= i < s.len(),
        s[i] == c,
        forall|j: int| 0 <= j < i ==> s[j] != c,
    ensures
        index_of(s, c) == Some(i),
    decreases s.len(),
{
    if i > 0 {
        lemma_index_of_first(s.drop_first(), c, i - 1);
    }
}

/// Where `c` does not occur, it has no first occurrence.
proof fn lemma_index_of_none(s: Seq<char>, c: char)
    requires
        forall|j: int| 0 <= j < s.len() ==> s[j] != c,
    ensures
        index_of(s, c) is None,
    decreases s.len(),
{
    if s.len() > 0 {
        lemma_index_of_none(s.drop_first(), c);
    }
}

/// `v` cut at its first `c`, both sides trimmed.
pub fn split_once_chars(v: &Vec<char>, c: char) -> (r: (Vec<char>, Vec<char>))
    ensures
        (r.0@, r.1@) == split_once(v@, c),
{
    let len = v.len();
    match position(v, c) {
        Some(i) => {
            let l = sub_chars(v, 0, i);
            let rest = sub_chars(v, i + 1, len);
            assert(l@ == v@.take(i as int));
            assert(rest@ == v@.skip(i + 1));
            (trimmed(&l), trimmed(&rest))
        },
        None => (trimmed(v), Vec::new()),
    }
}

/// The digits of `s` make up a larger number than those of any prefix of them.
proof fn lemma_digits_grow(s: Seq<char>, k: int)
    requires
        0 <= k <= s.len(),
    ensures
        digits_value(s.take(k)) <= digits_value(s),
    decreases s.len() - k,
{
    if k < s.len() {
        lemma_digits_grow(s, k + 1);
        assert(s.take(k + 1).drop_last() == s.take(k));
    } else {
        assert(s.take(k) == s);
    }
}

/// The value of the digits `d`, where they are all digits and it fits in a `usize`.
fn digits_number(d: &Vec<char>) -> (r: Option<usize>)
    ensures
        r == (if all_digits(d@) && digits_value(d@) <= usize::MAX {
            Some(digits_value(d@) as usize)
        } else {
            None
        }),
{
    let len = d.len();
    let mut value: usize = 0;
    let mut i: usize = 0;
    while i < len
        invariant
            i <= len == d@.len(),
            value == digits_value(d@.take(i as int)),
            forall|j: int| 0 <= j < i ==> #[trigger] is_digit(d@[j]),
        decreases len - i,
    {
        let c = d[i];
        if !('0' <= c && c <= '9') {
            assert(!is_digit(d@[i as int]));
            return None;
        }
        assert(d@.take(i + 1).drop_last() == d@.take(i as int));
        let digit = (c as u32 - '0' as u32) as usize;
        let next = match value.checked_mul(10) {
            Some(m) => m.checked_add(digit),
            None => None,
        };
        match next {
            Some(n) => {
                value = n;
            },
            None => {
                proof {
                    lemma_digits_grow(d@, i + 1);
                }
                return None;
            },
        }
        i = i + 1;
    }
    assert(d@.take(len as int) == d@);
    Some(value)
}

/// The number that the characters `v` spell, as [`decimal`] says.
pub fn parse_usize(v: &Vec<char>) -> (r: Option<usize>)
    ensures
        r == decimal(v@),
{
    let len = v.len();
    let start: usize = if len > 0 && v[0] == '+' {
        1
    } else {
        0
    };
    let d = sub_chars(v, start, len);
    assert(d@ == unsigned_part(v@));
    if d.len() == 0 {
        return None;
    }
    digits_number(&d)
}

/// The pieces of `s` between the occurrences of `c`.
pub open spec fn pieces(s: Seq<char>, c: char) -> Seq<Seq<char>>
    decreases s.len(),
{
    match index_of(s, c) {
        Some(i) => if 0 <= i < s.len() {
            seq![s.take(i)] + pieces(s.skip(i + 1), c)
        } else {
            seq![s]
        },
        None => seq![s],
    }
}

/// `index_of` finds an index inside the text.
proof fn lemma_index_of_range(s: Seq<char>, c: char)
    ensures
        index_of(s, c) matches Some(i) ==> 0 <= i < s.len() && s[i] == c,
    decreases s.len(),
{
    if s.len() > 0 {
        lemma_index_of_range(s.drop_first(), c);
    }
}

/// The pieces of `v` between the occurrences of `c`.
pub fn split_chars(v: &Vec<char>, c: char) -> (r: Vec<Vec<char>>)
    ensures
        r@.map_values(|p: Vec<char>| p@) == pieces(v@, c),
    decreases v@.len(),
{
    let len = v.len();
    match position(v, c) {
        None => {
            let mut out: Vec<Vec<char>> = Vec::new();
            let whole = sub_chars(v, 0, len);
            assert(whole@ == v@);
            out.push(whole);
            assert(out@.map_values(|p: Vec<char>| p@) =~= seq![v@]);
            out
        },
        Some(i) => {
            let head = sub_chars(v, 0, i);
            let rest = sub_chars(v, i + 1, len);
            assert(head@ == v@.take(i as int));
            assert(rest@ == v@.skip(i + 1));
            let tail = split_chars(&rest, c);
            let mut out: Vec<Vec<char>> = Vec::new();
            out.push(head);
            let ghost first = out@;
            let mut k: usize = 0;
            while k < tail.len()
                invariant
                    k <= tail@.len(),
                    out@.len() == k + 1,
                    out@[0]@ == v@.take(i as int),
                    forall|j: int| 0 <= j < k ==> (#[trigger] out@[j + 1])@ == tail@[j]@,
                decreases tail@.len() - k,
            {
                out.push(sub_chars(&tail[k], 0, tail[k].len()));
                assert(tail@[k as int]@.subrange(0, tail@[k as int]@.len() as int) == tail@[k as int]@);
                k = k + 1;
            }
            let ghost want = seq![v@.take(i as int)] + tail@.map_values(|p: Vec<char>| p@);
            assert forall|j: int| 0 <= j < want.len() implies out@.map_values(|p: Vec<char>| p@)[j]
                == want[j] by {
                if j > 0 {
                    assert(out@[(j - 1) + 1]@ == tail@[j - 1]@);
                }
            }
            assert(out@.map_values(|p: Vec<char>| p@) =~= want);
            out
        },
    }
}

} // verus!
