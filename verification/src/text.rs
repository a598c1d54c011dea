//! Text building blocks: decimal rendering of integers, the escaping of
//! spaces in free-text queries, and splitting and trimming of lists
//! written as one string.

use vstd::prelude::*;
use vstd::string::*;

verus! {

/// The texts held by a sequence of strings.
pub open spec fn texts(values: Seq<String>) -> Seq<Seq<char>> {
    values.map_values(|s: String| s@)
}

/// The character that writes the decimal digit `d`.
pub open spec fn digit_char(d: int) -> char
    recommends
        0 <= d < 10,
{
    if d == 0 {
        '0'
    } else if d == 1 {
        '1'
    } else if d == 2 {
        '2'
    } else if d == 3 {
        '3'
    } else if d == 4 {
        '4'
    } else if d == 5 {
        '5'
    } else if d == 6 {
        '6'
    } else if d == 7 {
        '7'
    } else if d == 8 {
        '8'
    } else {
        '9'
    }
}

/// Decimal digits of a natural number, most significant first, without
/// leading zeros (zero itself is "0").
pub open spec fn decimal_nat(n: nat) -> Seq<char>
    decreases n,
{
    if n < 10 {
        seq![digit_char(n as int)]
    } else {
        decimal_nat(n / 10).push(digit_char((n % 10) as int))
    }
}

/// Decimal rendering of an integer: a minus sign for negative numbers,
/// then the digits of its magnitude.
pub open spec fn decimal(n: int) -> Seq<char> {
    if n < 0 {
        seq!['-'] + decimal_nat((-n) as nat)
    } else {
        decimal_nat(n as nat)
    }
}

/// The query text with every space replaced by `%20`; all other
/// characters stay as they are.
pub open spec fn escape_spaces(q: Seq<char>) -> Seq<char>
    decreases q.len(),
{
    if q.len() == 0 {
        Seq::empty()
    } else if q.last() == ' ' {
        escape_spaces(q.drop_last()) + seq!['%', '2', '0']
    } else {
        escape_spaces(q.drop_last()).push(q.last())
    }
}

/// Appends one character to a string. Wraps `String::push`, which
/// std documents as appending the given char to the end of the string.
#[verifier::external_body]
pub(crate) fn push_char(s: &mut String, c: char)
    ensures
        final(s)@ == old(s)@.push(c),
{
    s.push(c);
}

fn digit(d: u64) -> (c: char)
    requires
        d < 10,
    ensures
        c == digit_char(d as int),
{
    if d == 0 {
        '0'
    } else if d == 1 {
        '1'
    } else if d == 2 {
        '2'
    } else if d == 3 {
        '3'
    } else if d == 4 {
        '4'
    } else if d == 5 {
        '5'
    } else if d == 6 {
        '6'
    } else if d == 7 {
        '7'
    } else if d == 8 {
        '8'
    } else {
        '9'
    }
}

/// Appends the decimal digits of `n` to `out`.
pub fn push_decimal_nat(out: &mut String, n: u64)
    ensures
        final(out)@ == old(out)@ + decimal_nat(n as nat),
    decreases n,
{
    if n >= 10 {
        push_decimal_nat(out, n / 10);
    }
    push_char(out, digit(n % 10));
}

/// Appends the decimal rendering of `n` to `out`.
pub fn push_decimal(out: &mut String, n: i32)
    ensures
        final(out)@ == old(out)@ + decimal(n as int),
{
    let wide: i64 = n as i64;
    if wide < 0 {
        push_char(out, '-');
        push_decimal_nat(out, (-wide) as u64);
    } else {
        push_decimal_nat(out, wide as u64);
    }
}

/// Appends `q` to `out` with every space written as `%20`.
pub fn push_escaped(out: &mut String, q: &str)
    ensures
        final(out)@ == old(out)@ + escape_spaces(q@),
{
    for c in it: q.chars()
        invariant
            it.seq() == q@,
            out@ == old(out)@ + escape_spaces(q@.take(it.index() as int)),
    {
        proof {
            let done = it.index() as int;
            assert(q@.take(done + 1).drop_last() == q@.take(done));
            assert(q@.take(done + 1).last() == c);
        }
        if c == ' ' {
            out.append("%20");
            proof {
                reveal_strlit("%20");
                assert("%20"@ == seq!['%', '2', '0']);
            }
        } else {
            push_char(out, c);
        }
    }
    proof {
        assert(q@.take(q@.len() as int) == q@);
    }
}

/// Whether `char::is_whitespace` holds of the character: whether it has
/// the Unicode property White_Space.
pub uninterp spec fn is_whitespace(c: char) -> bool;

/// Tells whether a character is whitespace. Wraps `char::is_whitespace`;
/// the contract only names its answer, which depends on the character
/// alone.
#[verifier::external_body]
pub(crate) fn whitespace(c: char) -> (res: bool)
    ensures
        res == is_whitespace(c),
{
    c.is_whitespace()
}

/// The pieces of `s` between occurrences of `sep`, in order. There is
/// always one piece more than there are separators, so the empty text
/// has one empty piece.
pub open spec fn split(s: Seq<char>, sep: char) -> Seq<Seq<char>>
    decreases s.len(),
{
    if s.len() == 0 {
        seq![Seq::empty()]
    } else {
        let before = split(s.drop_last(), sep);
        if s.last() == sep {
            before.push(Seq::empty())
        } else {
            before.drop_last().push(before.last().push(s.last()))
        }
    }
}

/// `s` without its leading whitespace.
pub open spec fn trim_start(s: Seq<char>) -> Seq<char>
    decreases s.len(),
{
    if s.len() > 0 && is_whitespace(s[0]) {
        trim_start(s.skip(1))
    } else {
        s
    }
}

/// `s` without its trailing whitespace.
pub open spec fn trim_end(s: Seq<char>) -> Seq<char>
    decreases s.len(),
{
    if s.len() > 0 && is_whitespace(s.last()) {
        trim_end(s.drop_last())
    } else {
        s
    }
}

/// `s` without the whitespace that surrounds it.
pub open spec fn trim(s: Seq<char>) -> Seq<char> {
    trim_end(trim_start(s))
}

/// The contents of a sequence of character buffers.
pub open spec fn contents(pieces: Seq<Vec<char>>) -> Seq<Seq<char>> {
    pieces.map_values(|p: Vec<char>| p@)
}

/// Splits `text` at every occurrence of `sep`.
pub fn split_on(text: &str, sep: char) -> (pieces: Vec<Vec<char>>)
    ensures
        contents(pieces@) == split(text@, sep),
{
    let mut done: Vec<Vec<char>> = Vec::new();
    let mut current: Vec<char> = Vec::new();
    proof {
        assert(text@.take(0) == Seq::<char>::empty());
        assert(contents(done@).push(current@) == seq![Seq::<char>::empty()]);
    }
    for c in it: text.chars()
        invariant
            it.seq() == text@,
            contents(done@).push(current@) == split(text@.take(it.index() as int), sep),
    {
        proof {
            let seen = it.index() as int;
            assert(text@.take(seen + 1).drop_last() == text@.take(seen));
            assert(text@.take(seen + 1).last() == c);
            let before = split(text@.take(seen), sep);
            assert(before.drop_last() == contents(done@));
            assert(before.last() == current@);
        }
        if c == sep {
            proof {
                assert(contents(done@.push(current)) == contents(done@).push(current@));
            }
            done.push(current);
            current = Vec::new();
        } else {
            current.push(c);
        }
    }
    proof {
        assert(text@.take(text@.len() as int) == text@);
        assert(contents(done@.push(current)) == contents(done@).push(current@));
    }
    done.push(current);
    done
}

/// Dropping leading whitespace one character at a time.
proof fn lemma_trim_start_skip(s: Seq<char>, k: int)
    requires
        0 <= k <= s.len(),
        forall|j: int| 0 <= j < k ==> is_whitespace(#[trigger] s[j]),
    ensures
        trim_start(s) == trim_start(s.skip(k)),
    decreases k,
{
    if k > 0 {
        lemma_trim_start_skip(s, k - 1);
        let rest = s.skip(k - 1);
        assert(rest[0] == s[k - 1]);
        assert(rest.skip(1) == s.skip(k));
    } else {
        assert(s.skip(0) == s);
    }
}

/// Dropping trailing whitespace one character at a time.
proof fn lemma_trim_end_take(s: Seq<char>, k: int)
    requires
        0 <= k <= s.len(),
        forall|j: int| k <= j < s.len() ==> is_whitespace(#[trigger] s[j]),
    ensures
        trim_end(s) == trim_end(s.take(k)),
    decreases s.len() - k,
{
    if k < s.len() {
        lemma_trim_end_take(s, k + 1);
        let longer = s.take(k + 1);
        assert(longer.last() == s[k]);
        assert(longer.drop_last() == s.take(k));
    } else {
        assert(s.take(k) == s);
    }
}

/// Whether `start..end` is what trimming keeps of a text whose blank
/// characters are marked in `blank`: everything before `start` and from
/// `end` on is blank, and the kept part, unless empty, begins and ends
/// with a character that is not blank. A text that is blank throughout
/// keeps the empty range at its end.
pub open spec fn is_kept_range(blank: Seq<bool>, start: int, end: int) -> bool {
    &&& 0 <= start <= end <= blank.len()
    &&& forall|j: int| 0 <= j < start ==> blank[j]
    &&& forall|j: int| end <= j < blank.len() ==> blank[j]
    &&& start < end ==> !blank[start] && !blank[end - 1]
    &&& start == end ==> start == blank.len()
}

/// Finds what trimming keeps, given for each character whether it is
/// blank.
pub fn kept_range(blank: &Vec<bool>) -> (range: (usize, usize))
    ensures
        is_kept_range(blank@, range.0 as int, range.1 as int),
{
    let n: usize = blank.len();
    let mut start: usize = 0;
    while start < n && blank[start]
        invariant
            n == blank@.len(),
            start <= n,
            forall|j: int| 0 <= j < start ==> blank@[j],
        decreases n - start,
    {
        start = start + 1;
    }
    let mut end: usize = n;
    while end > start && blank[end - 1]
        invariant
            n == blank@.len(),
            start <= end <= n,
            start < n ==> !blank@[start as int],
            forall|j: int| end <= j < n ==> blank@[j],
        decreases end - start,
    {
        end = end - 1;
    }
    (start, end)
}

/// The kept range of a text, read with `is_whitespace` as the mark of
/// a blank character, is its trimmed text.
pub proof fn lemma_kept_range_is_trim(s: Seq<char>, blank: Seq<bool>, start: int, end: int)
    requires
        blank.len() == s.len(),
        forall|j: int| 0 <= j < s.len() ==> blank[j] == is_whitespace(#[trigger] s[j]),
        is_kept_range(blank, start, end),
    ensures
        trim(s) == s.subrange(start, end),
{
    let lead = s.skip(start);
    assert forall|j: int| 0 <= j < start implies is_whitespace(#[trigger] s[j]) by {
        assert(blank[j]);
    }
    lemma_trim_start_skip(s, start);
    assert(trim_start(s) == lead) by {
        if start < s.len() {
            assert(lead[0] == s[start]);
            assert(!blank[start]);
        }
    }
    assert forall|j: int| end - start <= j < lead.len() implies is_whitespace(
        #[trigger] lead[j],
    ) by {
        assert(lead[j] == s[j + start]);
        assert(blank[j + start]);
    }
    lemma_trim_end_take(lead, end - start);
    let core = lead.take(end - start);
    assert(trim_end(core) == core) by {
        if end > start {
            assert(core.last() == s[end - 1]);
            assert(!blank[end - 1]);
        }
    }
    assert(core == s.subrange(start, end));
}

/// The text of `piece` without the whitespace that surrounds it.
pub fn trimmed(piece: &Vec<char>) -> (res: String)
    ensures
        res@ == trim(piece@),
{
    let n: usize = piece.len();
    let mut blank: Vec<bool> = Vec::new();
    let mut k: usize = 0;
    while k < n
        invariant
            n == piece@.len(),
            k <= n,
            blank@.len() == k,
            forall|j: int| 0 <= j < k ==> blank@[j] == is_whitespace(#[trigger] piece@[j]),
        decreases n - k,
    {
        blank.push(whitespace(piece[k]));
        k = k + 1;
    }
    let (start, end) = kept_range(&blank);
    proof {
        lemma_kept_range_is_trim(piece@, blank@, start as int, end as int);
    }
    let mut res: String = String::new();
    let mut i: usize = start;
    while i < end
        invariant
            start <= i <= end <= piece@.len(),
            res@ == piece@.subrange(start as int, i as int),
        decreases end - i,
    {
        push_char(&mut res, piece[i]);
        proof {
            assert(piece@.subrange(start as int, i as int).push(piece@[i as int])
                == piece@.subrange(start as int, i + 1));
        }
        i = i + 1;
    }
    res
}

} // verus!
