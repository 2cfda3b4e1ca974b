//! Character-level text: whitespace, trimming, lines, words, searching,
//! decimal numbers, and the conversions between `str`/`String` and the
//! `Vec<char>` buffers that the rest of the library works on.
use vstd::prelude::*;

verus! {

/// `String::push` appends one character at the end of the string.
pub assume_specification[ String::push ](string: &mut String, ch: char)
    ensures
        final(string)@ == old(string)@.push(ch),
;

// ---------------------------------------------------------------------------
// Whitespace and trimming
// ---------------------------------------------------------------------------
/// Unicode `White_Space`, the property that `char::is_whitespace` tests.
pub open spec fn is_ws(c: char) -> bool {
    ||| ('\u{9}' <= c && c <= '\u{d}')
    ||| c == ' '
    ||| c == '\u{85}'
    ||| c == '\u{a0}'
    ||| c == '\u{1680}'
    ||| ('\u{2000}' <= c && c <= '\u{200a}')
    ||| c == '\u{2028}'
    ||| c == '\u{2029}'
    ||| c == '\u{202f}'
    ||| c == '\u{205f}'
    ||| c == '\u{3000}'
}

pub fn is_whitespace(c: char) -> (b: bool)
    ensures
        b == is_ws(c),
{
    ('\u{9}' <= c && c <= '\u{d}') || c == ' ' || c == '\u{85}' || c == '\u{a0}' || c
        == '\u{1680}' || ('\u{2000}' <= c && c <= '\u{200a}') || c == '\u{2028}' || c
        == '\u{2029}' || c == '\u{202f}' || c == '\u{205f}' || c == '\u{3000}'
}

/// `s` without its leading whitespace.
pub open spec fn trim_start(s: Seq<char>) -> Seq<char>
    decreases s.len(),
{
    if s.len() > 0 && is_ws(s[0]) {
        trim_start(s.skip(1))
    } else {
        s
    }
}

/// `s` without its trailing whitespace.
pub open spec fn trim_end(s: Seq<char>) -> Seq<char>
    decreases s.len(),
{
    if s.len() > 0 && is_ws(s.last()) {
        trim_end(s.drop_last())
    } else {
        s
    }
}

/// `s` without leading and trailing whitespace.
pub open spec fn trim(s: Seq<char>) -> Seq<char> {
    trim_end(trim_start(s))
}

/// The first index in `lo..=hi` from which `s[..hi]` has no leading whitespace.
pub fn trim_start_index(s: &Vec<char>, lo: usize, hi: usize) -> (r: usize)
    requires
        lo <= hi <= s@.len(),
    ensures
        lo <= r <= hi,
        s@.subrange(r as int, hi as int) == trim_start(s@.subrange(lo as int, hi as int)),
{
    let mut i = lo;
    while i < hi && is_whitespace(s[i])
        invariant
            lo <= i <= hi <= s@.len(),
            trim_start(s@.subrange(i as int, hi as int)) == trim_start(
                s@.subrange(lo as int, hi as int),
            ),
        decreases hi - i,
    {
        assert(s@.subrange(i as int, hi as int).skip(1) =~= s@.subrange(i + 1, hi as int));
        i = i + 1;
    }
    i
}

/// The last index in `lo..=hi` up to which `s[lo..]` has no trailing whitespace.
pub fn trim_end_index(s: &Vec<char>, lo: usize, hi: usize) -> (r: usize)
    requires
        lo <= hi <= s@.len(),
    ensures
        lo <= r <= hi,
        s@.subrange(lo as int, r as int) == trim_end(s@.subrange(lo as int, hi as int)),
{
    let mut j = hi;
    while j > lo && is_whitespace(s[j - 1])
        invariant
            lo <= j <= hi <= s@.len(),
            trim_end(s@.subrange(lo as int, j as int)) == trim_end(
                s@.subrange(lo as int, hi as int),
            ),
        decreases j,
    {
        assert(s@.subrange(lo as int, j as int).drop_last() =~= s@.subrange(lo as int, j - 1));
        j = j - 1;
    }
    j
}

/// The characters `s[lo..hi]`.
pub fn copy_range(s: &Vec<char>, lo: usize, hi: usize) -> (r: Vec<char>)
    requires
        lo <= hi <= s@.len(),
    ensures
        r@ == s@.subrange(lo as int, hi as int),
{
    let mut r: Vec<char> = Vec::new();
    let mut i = lo;
    while i < hi
        invariant
            lo <= i <= hi <= s@.len(),
            r@ == s@.subrange(lo as int, i as int),
        decreases hi - i,
    {
        r.push(s[i]);
        assert(r@ =~= s@.subrange(lo as int, i + 1));
        i = i + 1;
    }
    r
}

/// Appends the characters `s[lo..hi]` to `buf`.
pub fn push_range(buf: &mut Vec<char>, s: &Vec<char>, lo: usize, hi: usize)
    requires
        lo <= hi <= s@.len(),
    ensures
        final(buf)@ == old(buf)@ + s@.subrange(lo as int, hi as int),
{
    let ghost start = buf@;
    let mut i = lo;
    while i < hi
        invariant
            lo <= i <= hi <= s@.len(),
            buf@ == start + s@.subrange(lo as int, i as int),
        decreases hi - i,
    {
        buf.push(s[i]);
        assert(buf@ =~= start + s@.subrange(lo as int, i + 1));
        i = i + 1;
    }
}

/// `s[lo..hi]` with leading and trailing whitespace removed.
pub fn trimmed_range(s: &Vec<char>, lo: usize, hi: usize) -> (r: Vec<char>)
    requires
        lo <= hi <= s@.len(),
    ensures
        r@ == trim(s@.subrange(lo as int, hi as int)),
{
    let a = trim_start_index(s, lo, hi);
    let b = trim_end_index(s, a, hi);
    copy_range(s, a, b)
}

/// `s` with leading and trailing whitespace removed.
pub fn trimmed(s: &Vec<char>) -> (r: Vec<char>)
    ensures
        r@ == trim(s@),
{
    assert(s@.subrange(0, s@.len() as int) =~= s@);
    trimmed_range(s, 0, s.len())
}

// ---------------------------------------------------------------------------
// Building text
// ---------------------------------------------------------------------------
/// The characters of `s`, in order.
pub fn chars_of(s: &str) -> (v: Vec<char>)
    ensures
        v@ == s@,
{
    let mut v: Vec<char> = Vec::new();
    for c in it: s.chars()
        invariant
            v@ == it.seq().take(it.index() as int),
    {
        v.push(c);
    }
    v
}

/// A string holding the characters of `v`, in order.
pub fn string_of(v: &Vec<char>) -> (s: String)
    ensures
        s@ == v@,
{
    let mut s = String::new();
    for i in 0..v.len()
        invariant
            s@ == v@.take(i as int),
    {
        s.push(v[i]);
        assert(v@.take(i + 1) == v@.take(i as int).push(v@[i as int]));
    }
    assert(v@.take(v.len() as int) == v@);
    s
}

/// Appends the characters of `lit` to `buf`.
pub fn push_str(buf: &mut Vec<char>, lit: &str)
    ensures
        final(buf)@ == old(buf)@ + lit@,
{
    let ghost start = buf@;
    for c in it: lit.chars()
        invariant
            buf@ == start + it.seq().take(it.index() as int),
    {
        buf.push(c);
    }
}

/// Appends the characters of `v` to `buf`.
pub fn push_chars(buf: &mut Vec<char>, v: &Vec<char>)
    ensures
        final(buf)@ == old(buf)@ + v@,
{
    let ghost start = buf@;
    for i in 0..v.len()
        invariant
            buf@ == start + v@.take(i as int),
    {
        buf.push(v[i]);
        assert(v@.take(i + 1) =~= v@.take(i as int).push(v@[i as int]));
    }
    assert(v@.take(v.len() as int) =~= v@);
}

/// Appends the characters of the string `s` to `buf`.
pub fn push_string(buf: &mut Vec<char>, s: &String)
    ensures
        final(buf)@ == old(buf)@ + s@,
{
    push_str(buf, s.as_str());
}

/// Whether the characters of `a` are those of `lit`.
pub fn eq_str(a: &Vec<char>, lit: &str) -> (b: bool)
    ensures
        b == (a@ == lit@),
{
    let n = lit.unicode_len();
    if n != a.len() {
        return false;
    }
    for i in 0..n
        invariant
            n == lit@.len(),
            n == a@.len(),
            forall|j: int| 0 <= j < i ==> a@[j] == lit@[j],
    {
        if a[i] != lit.get_char(i) {
            return false;
        }
    }
    assert(a@ =~= lit@);
    true
}

/// Whether the strings `a` and `b` hold the same characters.
pub fn str_eq(a: &str, b: &str) -> (r: bool)
    ensures
        r == (a@ == b@),
{
    let n = a.unicode_len();
    if n != b.unicode_len() {
        return false;
    }
    for i in 0..n
        invariant
            n == a@.len(),
            n == b@.len(),
            forall|j: int| 0 <= j < i ==> a@[j] == b@[j],
    {
        if a.get_char(i) != b.get_char(i) {
            return false;
        }
    }
    assert(a@ =~= b@);
    true
}

/// Whether `s` begins with `p`.
pub open spec fn starts_with(s: Seq<char>, p: Seq<char>) -> bool {
    p.len() <= s.len() && s.take(p.len() as int) == p
}

/// Whether `s` ends with `p`.
pub open spec fn ends_with(s: Seq<char>, p: Seq<char>) -> bool {
    p.len() <= s.len() && s.skip(s.len() - p.len()) == p
}

// ---------------------------------------------------------------------------
// Searching
// ---------------------------------------------------------------------------
/// The index of the first `c` in `s`.
pub open spec fn first_index(s: Seq<char>, c: char) -> Option<int>
    decreases s.len(),
{
    if s.len() == 0 {
        None
    } else {
        match first_index(s.drop_last(), c) {
            Some(i) => Some(i),
            None => if s.last() == c {
                Some(s.len() - 1)
            } else {
                None
            },
        }
    }
}

/// The index of the last `c` in `s`.
pub open spec fn last_index(s: Seq<char>, c: char) -> Option<int>
    decreases s.len(),
{
    if s.len() == 0 {
        None
    } else if s.last() == c {
        Some(s.len() - 1)
    } else {
        last_index(s.drop_last(), c)
    }
}

/// A text without `c` has no first `c`.
pub proof fn lemma_first_index_none(s: Seq<char>, c: char)
    requires
        forall|j: int| 0 <= j < s.len() ==> s[j] != c,
    ensures
        first_index(s, c) is None,
    decreases s.len(),
{
    if s.len() > 0 {
        lemma_first_index_none(s.drop_last(), c);
    }
}

/// A `c` with none before it is the first `c`.
pub proof fn lemma_first_index_at(s: Seq<char>, c: char, i: int)
    requires
        0 <= i < s.len(),
        s[i] == c,
        forall|j: int| 0 <= j < i ==> s[j] != c,
    ensures
        first_index(s, c) == Some(i),
    decreases s.len(),
{
    if i == s.len() - 1 {
        lemma_first_index_none(s.drop_last(), c);
    } else {
        lemma_first_index_at(s.drop_last(), c, i);
    }
}

/// The first `c` is a `c` with none before it; when there is none, no
/// character is `c`.
pub proof fn lemma_first_index_facts(s: Seq<char>, c: char)
    ensures
        first_index(s, c) matches Some(i) ==> 0 <= i < s.len() && s[i] == c && forall|j: int|
            0 <= j < i ==> s[j] != c,
        first_index(s, c) is None ==> forall|j: int| 0 <= j < s.len() ==> s[j] != c,
    decreases s.len(),
{
    if s.len() > 0 {
        let t = s.drop_last();
        lemma_first_index_facts(t, c);
        assert forall|j: int| 0 <= j < t.len() implies t[j] == s[j] by {}
    }
}

/// The last `c` is a `c` with none after it; when there is none, no
/// character is `c`.
pub proof fn lemma_last_index_facts(s: Seq<char>, c: char)
    ensures
        last_index(s, c) matches Some(i) ==> 0 <= i < s.len() && s[i] == c && forall|j: int|
            i < j < s.len() ==> s[j] != c,
        last_index(s, c) is None ==> forall|j: int| 0 <= j < s.len() ==> s[j] != c,
    decreases s.len(),
{
    if s.len() > 0 {
        let t = s.drop_last();
        lemma_last_index_facts(t, c);
        assert forall|j: int| 0 <= j < t.len() implies t[j] == s[j] by {}
    }
}

/// A `c` with none after it is the last `c`.
pub proof fn lemma_last_index_at(s: Seq<char>, c: char, i: int)
    requires
        0 <= i < s.len(),
        s[i] == c,
        forall|j: int| i < j < s.len() ==> s[j] != c,
    ensures
        last_index(s, c) == Some(i),
    decreases s.len(),
{
    if i < s.len() - 1 {
        lemma_last_index_at(s.drop_last(), c, i);
    }
}

/// A text without `c` has no last `c`.
pub proof fn lemma_last_index_none(s: Seq<char>, c: char)
    requires
        forall|j: int| 0 <= j < s.len() ==> s[j] != c,
    ensures
        last_index(s, c) is None,
    decreases s.len(),
{
    if s.len() > 0 {
        lemma_last_index_none(s.drop_last(), c);
    }
}

/// The index of the first `c` in `s`.
pub fn find_first(s: &Vec<char>, c: char) -> (r: Option<usize>)
    ensures
        match r {
            Some(i) => first_index(s@, c) == Some(i as int) && i < s@.len() && s@[i as int] == c,
            None => first_index(s@, c) is None,
        },
{
    for i in 0..s.len()
        invariant
            forall|j: int| 0 <= j < i ==> s@[j] != c,
    {
        if s[i] == c {
            proof {
                lemma_first_index_at(s@, c, i as int);
            }
            return Some(i);
        }
    }
    proof {
        lemma_first_index_none(s@, c);
    }
    None
}

/// The index of the last `c` in `s`.
pub fn find_last(s: &Vec<char>, c: char) -> (r: Option<usize>)
    ensures
        match r {
            Some(i) => last_index(s@, c) == Some(i as int) && i < s@.len() && s@[i as int] == c,
            None => last_index(s@, c) is None,
        },
{
    let mut k = s.len();
    while k > 0
        invariant
            k <= s@.len(),
            forall|j: int| k <= j < s@.len() ==> s@[j] != c,
        decreases k,
    {
        if s[k - 1] == c {
            proof {
                lemma_last_index_at(s@, c, k - 1);
            }
            return Some(k - 1);
        }
        k = k - 1;
    }
    proof {
        lemma_last_index_none(s@, c);
    }
    None
}

// ---------------------------------------------------------------------------
// Lines and words
// ---------------------------------------------------------------------------
/// The characters of an optional string.
pub open spec fn opt_view(o: Option<String>) -> Option<Seq<char>> {
    match o {
        Some(s) => Some(s@),
        None => None,
    }
}

/// The character sequences of a sequence of strings.
pub open spec fn strings_view(v: Seq<String>) -> Seq<Seq<char>> {
    v.map_values(|s: String| s@)
}

/// The character sequences of a vector of character vectors.
pub open spec fn seqs(v: Seq<Vec<char>>) -> Seq<Seq<char>> {
    v.map_values(|x: Vec<char>| x@)
}

/// A line as `str::lines` yields it: a `'\r'` right before the `'\n'` goes.
pub open spec fn strip_cr(line: Seq<char>) -> Seq<char> {
    if line.len() > 0 && line.last() == '\r' {
        line.drop_last()
    } else {
        line
    }
}

/// The finished lines of `s` and the unfinished one after the last `'\n'`.
pub open spec fn lines_scan(s: Seq<char>) -> (Seq<Seq<char>>, Seq<char>)
    decreases s.len(),
{
    if s.len() == 0 {
        (seq![], seq![])
    } else {
        let (done, cur) = lines_scan(s.drop_last());
        if s.last() == '\n' {
            (done.push(strip_cr(cur)), seq![])
        } else {
            (done, cur.push(s.last()))
        }
    }
}

/// The lines of `s`, as `str::lines` yields them: split at `'\n'` (a `"\r\n"`
/// ends a line too), with no empty line after a final line ending.
pub open spec fn lines(s: Seq<char>) -> Seq<Seq<char>> {
    let (done, cur) = lines_scan(s);
    if cur.len() == 0 {
        done
    } else {
        done.push(cur)
    }
}

/// The lines of `s`.
pub fn split_lines(s: &Vec<char>) -> (r: Vec<Vec<char>>)
    ensures
        seqs(r@) == lines(s@),
{
    let mut done: Vec<Vec<char>> = Vec::new();
    let mut cur: Vec<char> = Vec::new();
    for i in 0..s.len()
        invariant
            (seqs(done@), cur@) == lines_scan(s@.take(i as int)),
    {
        assert(s@.take(i + 1).drop_last() =~= s@.take(i as int));
        let c = s[i];
        if c == '\n' {
            if cur.len() > 0 && cur[cur.len() - 1] == '\r' {
                cur.pop();
            }
            let line = cur;
            done.push(line);
            cur = Vec::new();
            assert(seqs(done@) =~= lines_scan(s@.take(i as int)).0.push(
                strip_cr(lines_scan(s@.take(i as int)).1),
            ));
        } else {
            cur.push(c);
        }
    }
    assert(s@.take(s@.len() as int) =~= s@);
    if cur.len() > 0 {
        done.push(cur);
        assert(seqs(done@) =~= lines_scan(s@).0.push(lines_scan(s@).1));
    }
    done
}

/// The finished words of `s` and the word that the end of `s` interrupts.
pub open spec fn words_scan(s: Seq<char>) -> (Seq<Seq<char>>, Seq<char>)
    decreases s.len(),
{
    if s.len() == 0 {
        (seq![], seq![])
    } else {
        let (done, cur) = words_scan(s.drop_last());
        if is_ws(s.last()) {
            if cur.len() > 0 {
                (done.push(cur), seq![])
            } else {
                (done, seq![])
            }
        } else {
            (done, cur.push(s.last()))
        }
    }
}

/// The words of `s`, as `str::split_whitespace` yields them: the maximal
/// runs of characters that are not whitespace.
pub open spec fn words(s: Seq<char>) -> Seq<Seq<char>> {
    let (done, cur) = words_scan(s);
    if cur.len() == 0 {
        done
    } else {
        done.push(cur)
    }
}

/// The words of `s`.
pub fn split_words(s: &Vec<char>) -> (r: Vec<Vec<char>>)
    ensures
        seqs(r@) == words(s@),
{
    let mut done: Vec<Vec<char>> = Vec::new();
    let mut cur: Vec<char> = Vec::new();
    for i in 0..s.len()
        invariant
            (seqs(done@), cur@) == words_scan(s@.take(i as int)),
    {
        assert(s@.take(i + 1).drop_last() =~= s@.take(i as int));
        let c = s[i];
        if is_whitespace(c) {
            if cur.len() > 0 {
                let w = cur;
                done.push(w);
                cur = Vec::new();
                assert(seqs(done@) =~= words_scan(s@.take(i as int)).0.push(
                    words_scan(s@.take(i as int)).1,
                ));
            }
        } else {
            cur.push(c);
        }
    }
    assert(s@.take(s@.len() as int) =~= s@);
    if cur.len() > 0 {
        done.push(cur);
        assert(seqs(done@) =~= words_scan(s@).0.push(words_scan(s@).1));
    }
    done
}

/// The items of `items` with `sep` between each two.
pub open spec fn join_with(items: Seq<Seq<char>>, sep: Seq<char>) -> Seq<char>
    decreases items.len(),
{
    if items.len() == 0 {
        seq![]
    } else if items.len() == 1 {
        items[0]
    } else {
        join_with(items.drop_last(), sep) + sep + items.last()
    }
}

/// Appends the items of `items[from..]`, with `sep` between each two, to `buf`.
pub fn push_joined(buf: &mut Vec<char>, items: &Vec<Vec<char>>, from: usize, sep: char)
    requires
        from <= items@.len(),
    ensures
        final(buf)@ == old(buf)@ + join_with(seqs(items@).skip(from as int), seq![sep]),
{
    let ghost start = buf@;
    let ghost all = seqs(items@).skip(from as int);
    let mut i = from;
    while i < items.len()
        invariant
            from <= i <= items@.len(),
            all == seqs(items@).skip(from as int),
            buf@ == start + join_with(all.take(i - from), seq![sep]),
        decreases items@.len() - i,
    {
        assert(all.take(i + 1 - from).drop_last() =~= all.take(i - from));
        assert(all.take(i + 1 - from).last() == items[i as int]@);
        if i > from {
            buf.push(sep);
        }
        push_chars(buf, &items[i]);
        assert(buf@ =~= start + join_with(all.take(i + 1 - from), seq![sep]));
        i = i + 1;
    }
    assert(all.take(i - from) =~= all);
}

/// Each of `items` between `pre` and `post`, one after the other.
pub open spec fn framed(items: Seq<Seq<char>>, pre: Seq<char>, post: Seq<char>) -> Seq<char>
    decreases items.len(),
{
    if items.len() == 0 {
        seq![]
    } else {
        framed(items.drop_last(), pre, post) + pre + items.last() + post
    }
}

/// Appends each of `items` between `pre` and `post` to `buf`.
pub fn push_framed(buf: &mut Vec<char>, items: &Vec<String>, pre: &str, post: &str)
    ensures
        final(buf)@ == old(buf)@ + framed(strings_view(items@), pre@, post@),
{
    let ghost start = buf@;
    let ghost all = strings_view(items@);
    for i in 0..items.len()
        invariant
            all == strings_view(items@),
            buf@ == start + framed(all.take(i as int), pre@, post@),
    {
        assert(all.take(i + 1).drop_last() =~= all.take(i as int));
        assert(all.take(i + 1).last() == items@[i as int]@);
        push_str(buf, pre);
        push_string(buf, &items[i]);
        push_str(buf, post);
        assert(buf@ =~= start + framed(all.take(i + 1), pre@, post@));
    }
    assert(all.take(items@.len() as int) =~= all);
}

// ---------------------------------------------------------------------------
// Decimal numbers
// ---------------------------------------------------------------------------
/// The ASCII digit for `d`.
pub open spec fn digit_char(d: nat) -> char {
    (d + '0' as nat) as char
}

/// Whether `c` is an ASCII decimal digit.
pub open spec fn is_digit(c: char) -> bool {
    '0' <= c && c <= '9'
}

/// The decimal digits of `n`, most significant first, with no leading zero.
pub open spec fn decimal(n: nat) -> Seq<char>
    decreases n,
{
    if n < 10 {
        seq![digit_char(n)]
    } else {
        decimal(n / 10).push(digit_char(n % 10))
    }
}

/// The decimal text of `v`, with a `'-'` before it when negative.
pub open spec fn int_text(v: int) -> Seq<char> {
    if v < 0 {
        seq!['-'] + decimal((-v) as nat)
    } else {
        decimal(v as nat)
    }
}

/// Appends the decimal digits of `n` to `buf`.
pub fn push_decimal(buf: &mut Vec<char>, n: u64)
    ensures
        final(buf)@ == old(buf)@ + decimal(n as nat),
    decreases n,
{
    if n >= 10 {
        push_decimal(buf, n / 10);
    }
    let d = (n % 10) as u8;
    let c = (d + 48u8) as char;
    assert(c == digit_char((n % 10) as nat));
    buf.push(c);
}

/// Appends the decimal text of `v` to `buf`.
pub fn push_int(buf: &mut Vec<char>, v: i32)
    ensures
        final(buf)@ == old(buf)@ + int_text(v as int),
{
    if v < 0 {
        buf.push('-');
        let m: i64 = -(v as i64);
        push_decimal(buf, m as u64);
        assert(buf@ =~= old(buf)@ + int_text(v as int));
    } else {
        push_decimal(buf, v as u64);
    }
}

/// Whether every character of `s` is a decimal digit.
pub open spec fn all_digits(s: Seq<char>) -> bool {
    forall|i: int| 0 <= i < s.len() ==> is_digit(#[trigger] s[i])
}

/// The number that the decimal digits `s` write.
pub open spec fn digits_value(s: Seq<char>) -> nat
    decreases s.len(),
{
    if s.len() == 0 {
        0
    } else {
        digits_value(s.drop_last()) * 10 + (s.last() as nat - '0' as nat) as nat
    }
}

/// What `str::parse` gives for an unsigned number no greater than `limit`:
/// an optional `'+'`, then at least one decimal digit.
pub open spec fn parse_unsigned(s: Seq<char>, limit: nat) -> Option<nat> {
    let body = if s.len() > 0 && s[0] == '+' {
        s.skip(1)
    } else {
        s
    };
    if body.len() > 0 && all_digits(body) && digits_value(body) <= limit {
        Some(digits_value(body))
    } else {
        None
    }
}

/// What `str::parse::<u64>` gives.
pub open spec fn parse_u64(s: Seq<char>) -> Option<u64> {
    match parse_unsigned(s, u64::MAX as nat) {
        Some(v) => Some(v as u64),
        None => None,
    }
}

/// What `str::parse::<u32>` gives.
pub open spec fn parse_u32(s: Seq<char>) -> Option<u32> {
    match parse_unsigned(s, u32::MAX as nat) {
        Some(v) => Some(v as u32),
        None => None,
    }
}

/// What `str::parse::<i32>` gives: an optional sign, then at least one
/// decimal digit, the value in range.
pub open spec fn parse_i32(s: Seq<char>) -> Option<i32> {
    if s.len() > 0 && s[0] == '-' {
        let body = s.skip(1);
        if body.len() > 0 && all_digits(body) && digits_value(body) <= 0x8000_0000 {
            Some((-digits_value(body)) as i32)
        } else {
            None
        }
    } else {
        match parse_unsigned(s, 0x7fff_ffff) {
            Some(v) => Some(v as i32),
            None => None,
        }
    }
}

proof fn lemma_digits_value_prefix(s: Seq<char>, i: int)
    requires
        0 <= i <= s.len(),
        all_digits(s),
    ensures
        digits_value(s.take(i)) <= digits_value(s),
    decreases s.len(),
{
    if i < s.len() {
        assert(s.drop_last().take(i) =~= s.take(i));
        assert(all_digits(s.drop_last())) by {
            assert forall|k: int| 0 <= k < s.drop_last().len() implies is_digit(
                #[trigger] s.drop_last()[k],
            ) by {
                assert(s.drop_last()[k] == s[k]);
            }
        }
        lemma_digits_value_prefix(s.drop_last(), i);
    } else {
        assert(s.take(i) =~= s);
    }
}

/// The value of the digits `s[lo..hi]` when they are all digits, nonempty,
/// and at most `limit`.
fn digits_upto(s: &Vec<char>, lo: usize, hi: usize, limit: u64) -> (r: Option<u64>)
    requires
        lo <= hi <= s@.len(),
        9 <= limit,
    ensures
        ({
            let body = s@.subrange(lo as int, hi as int);
            if body.len() > 0 && all_digits(body) && digits_value(body) <= limit {
                r == Some(digits_value(body) as u64)
            } else {
                r is None
            }
        }),
{
    let ghost body = s@.subrange(lo as int, hi as int);
    if lo == hi {
        return None;
    }
    let mut acc: u64 = 0;
    let mut i = lo;
    while i < hi
        invariant
            lo <= i <= hi <= s@.len(),
            body == s@.subrange(lo as int, hi as int),
            all_digits(body.take(i - lo)),
            acc as nat == digits_value(body.take(i - lo)),
            acc <= limit,
            9 <= limit,
        decreases hi - i,
    {
        let c = s[i];
        assert(body[i - lo] == c);
        if !('0' <= c && c <= '9') {
            assert(!all_digits(body));
            return None;
        }
        let d = (c as u32 - '0' as u32) as u64;
        assert(body.take(i + 1 - lo).drop_last() =~= body.take(i - lo));
        assert(all_digits(body.take(i + 1 - lo)));
        if acc > (limit - d) / 10 {
            proof {
                assert(acc * 10 + d > limit) by (nonlinear_arith)
                    requires
                        acc > (limit - d) / 10,
                        d <= 9 <= limit,
                ;
                if all_digits(body) {
                    lemma_digits_value_prefix(body, i + 1 - lo);
                }
            }
            return None;
        }
        assert(acc * 10 + d <= limit) by (nonlinear_arith)
            requires
                acc <= (limit - d) / 10,
                d <= 9 <= limit,
        ;
        assert(digits_value(body.take(i + 1 - lo)) == digits_value(body.take(i - lo)) * 10 + d);
        acc = acc * 10 + d;
        i = i + 1;
    }
    assert(body.take(hi - lo) =~= body);
    Some(acc)
}

/// `str::parse::<u64>` of `s[lo..hi]`.
pub fn parse_u64_range(s: &Vec<char>, lo: usize, hi: usize) -> (r: Option<u64>)
    requires
        lo <= hi <= s@.len(),
    ensures
        r == parse_u64(s@.subrange(lo as int, hi as int)),
{
    let ghost t = s@.subrange(lo as int, hi as int);
    if lo < hi && s[lo] == '+' {
        assert(t.skip(1) =~= s@.subrange(lo + 1, hi as int));
        digits_upto(s, lo + 1, hi, u64::MAX)
    } else {
        digits_upto(s, lo, hi, u64::MAX)
    }
}

/// `str::parse::<u32>` of `s`.
pub fn parse_u32_chars(s: &Vec<char>) -> (r: Option<u32>)
    ensures
        r == parse_u32(s@),
{
    assert(s@.subrange(0, s@.len() as int) =~= s@);
    let hi = s.len();
    let v = if 0 < hi && s[0] == '+' {
        assert(s@.skip(1) =~= s@.subrange(1, hi as int));
        digits_upto(s, 1, hi, u32::MAX as u64)
    } else {
        digits_upto(s, 0, hi, u32::MAX as u64)
    };
    match v {
        Some(v) => Some(v as u32),
        None => None,
    }
}

/// `str::parse::<i32>` of `s`.
pub fn parse_i32_chars(s: &Vec<char>) -> (r: Option<i32>)
    ensures
        r == parse_i32(s@),
{
    assert(s@.subrange(0, s@.len() as int) =~= s@);
    let hi = s.len();
    if 0 < hi && s[0] == '-' {
        assert(s@.skip(1) =~= s@.subrange(1, hi as int));
        match digits_upto(s, 1, hi, 0x8000_0000) {
            Some(v) => {
                let w: i64 = -(v as i64);
                Some(w as i32)
            },
            None => None,
        }
    } else {
        let v = if 0 < hi && s[0] == '+' {
            assert(s@.skip(1) =~= s@.subrange(1, hi as int));
            digits_upto(s, 1, hi, 0x7fff_ffff)
        } else {
            digits_upto(s, 0, hi, 0x7fff_ffff)
        };
        match v {
            Some(v) => Some(v as i32),
            None => None,
        }
    }
}


/// A text that neither starts nor ends with whitespace is its own trim.
pub proof fn lemma_trim_unchanged(s: Seq<char>)
    requires
        s.len() > 0,
        !is_ws(s[0]),
        !is_ws(s.last()),
    ensures
        trim(s) == s,
{
}

/// Decimal text reads back: the digits of `n` are all digits, the first is
/// not a sign, and they are worth `n`.
pub proof fn lemma_decimal_digits(n: nat)
    ensures
        decimal(n).len() > 0,
        all_digits(decimal(n)),
        digits_value(decimal(n)) == n,
        is_digit(decimal(n)[0]),
    decreases n,
{
    if n >= 10 {
        lemma_decimal_digits(n / 10);
        let p = decimal(n / 10);
        let d = decimal(n);
        assert(d == p.push(digit_char(n % 10)));
        assert(d.drop_last() =~= p);
        assert(d[0] == p[0]);
        assert(digit_char(n % 10) as nat == n % 10 + '0' as nat);
        assert(digits_value(d) == digits_value(p) * 10 + n % 10);
        assert((n / 10) * 10 + n % 10 == n);
        assert forall|i: int| 0 <= i < d.len() implies is_digit(#[trigger] d[i]) by {
            if i < p.len() {
                assert(d[i] == p[i]);
            }
        }
    } else {
        assert(decimal(n).drop_last() =~= Seq::<char>::empty());
        assert(digit_char(n) as nat == n + '0' as nat);
        assert(digits_value(Seq::<char>::empty()) == 0);
        assert(decimal(n).last() == digit_char(n));
        assert(digits_value(decimal(n)) == digits_value(decimal(n).drop_last()) * 10 + n);
    }
}

/// `str::parse::<u64>` reads back the decimal text of every `u64`.
pub proof fn lemma_parse_decimal(n: u64)
    ensures
        parse_u64(decimal(n as nat)) == Some(n),
{
    lemma_decimal_digits(n as nat);
}

} // verus!
