//! Character-level text handling: the parts of `str` that the library's
//! logic relies on, each stated over the string's sequence of characters.
use vstd::prelude::*;

verus! {

// ---------------------------------------------------------------------------
// Conversions between strings and character vectors
// ---------------------------------------------------------------------------

/// `String::push`: appends one character to the string.
#[verifier::external_body]
pub(crate) fn push_char(s: &mut String, c: char)
    ensures
        final(s)@ == old(s)@.push(c),
{
    s.push(c)
}

/// `String::pop`: removes the last character of the string and returns it,
/// or returns `None` and leaves the string alone when it is empty.
#[verifier::external_body]
pub(crate) fn pop_char(s: &mut String) -> (r: Option<char>)
    ensures
        old(s)@.len() == 0 ==> r is None && final(s)@ == old(s)@,
        old(s)@.len() > 0 ==> r == Some(old(s)@.last()) && final(s)@ == old(s)@.drop_last(),
{
    s.pop()
}

/// The characters of `s`, in order.
pub fn chars_of(s: &str) -> (v: Vec<char>)
    ensures
        v@ == s@,
{
    let mut v: Vec<char> = Vec::new();
    for c in it: s.chars()
        invariant
            v@ == it.seq().take(it.index() as int),
            it.seq() == s@,
    {
        v.push(c);
    }
    v
}

/// Appends the characters `cs[from..to]` to `out`.
pub(crate) fn push_range(out: &mut String, cs: &Vec<char>, from: usize, to: usize)
    requires
        from <= to <= cs@.len(),
    ensures
        final(out)@ == old(out)@ + cs@.subrange(from as int, to as int),
{
    let mut i = from;
    while i < to
        invariant
            from <= i <= to <= cs@.len(),
            out@ == old(out)@ + cs@.subrange(from as int, i as int),
        decreases to - i,
    {
        push_char(out, cs[i]);
        i = i + 1;
        assert(cs@.subrange(from as int, i as int) =~= cs@.subrange(from as int, (i - 1) as int).push(
            cs@[i - 1],
        ));
    }
}

/// The string made of the characters `cs[from..to]`.
pub(crate) fn string_of_range(cs: &Vec<char>, from: usize, to: usize) -> (s: String)
    requires
        from <= to <= cs@.len(),
    ensures
        s@ == cs@.subrange(from as int, to as int),
{
    let mut s = String::new();
    push_range(&mut s, cs, from, to);
    assert(Seq::<char>::empty() + cs@.subrange(from as int, to as int) =~= cs@.subrange(
        from as int,
        to as int,
    ));
    s
}

/// A copy of `s`.
pub(crate) fn copy_str(s: &str) -> (r: String)
    ensures
        r@ == s@,
{
    s.to_owned()
}

/// Whether the two strings hold the same characters.
pub fn str_eq(a: &str, b: &str) -> (r: bool)
    ensures
        r == (a@ == b@),
{
    a.to_owned() == b.to_owned()
}

// ---------------------------------------------------------------------------
// Whitespace and trimming
// ---------------------------------------------------------------------------

/// The Unicode `White_Space` property, which `char::is_whitespace` tests.
pub open spec fn is_ws(c: char) -> bool {
    let n = c as u32;
    ||| 0x09 <= n <= 0x0d
    ||| n == 0x20
    ||| n == 0x85
    ||| n == 0xa0
    ||| n == 0x1680
    ||| 0x2000 <= n <= 0x200a
    ||| n == 0x2028
    ||| n == 0x2029
    ||| n == 0x202f
    ||| n == 0x205f
    ||| n == 0x3000
}

/// Whether `c` is a whitespace character.
pub fn is_whitespace(c: char) -> (r: bool)
    ensures
        r == is_ws(c),
{
    let n = c as u32;
    (0x09 <= n && n <= 0x0d) || n == 0x20 || n == 0x85 || n == 0xa0 || n == 0x1680 || (0x2000 <= n
        && n <= 0x200a) || n == 0x2028 || n == 0x2029 || n == 0x202f || n == 0x205f || n == 0x3000
}

/// `s` without its leading whitespace.
pub open spec fn trim_start(s: Seq<char>) -> Seq<char>
    decreases s.len(),
{
    if s.len() > 0 && is_ws(s[0]) {
        trim_start(s.drop_first())
    } else {
        s
    }
}

/// `s` without its trailing whitespace.
pub open spec fn trim_end(s: Seq<char>) -> Seq<char>
    decreases s.len(),
{
    if s.len() > 0 && is_ws(s.last()) {
        trim_end(s.drop_last())
    } else {
        s
    }
}

/// `s` without leading and trailing whitespace, as `str::trim` gives it.
pub open spec fn trimmed(s: Seq<char>) -> Seq<char> {
    trim_end(trim_start(s))
}

/// `s` with leading and trailing whitespace removed.
pub fn trim(s: &str) -> (r: String)
    ensures
        r@ == trimmed(s@),
{
    let cs = chars_of(s);
    let n = cs.len();
    let mut i: usize = 0;
    assert(cs@.subrange(0, n as int) =~= cs@);
    while i < n && is_whitespace(cs[i])
        invariant
            i <= n == cs@.len(),
            cs@ == s@,
            trim_start(s@) == trim_start(cs@.subrange(i as int, n as int)),
        decreases n - i,
    {
        assert(cs@.subrange(i as int, n as int).drop_first() =~= cs@.subrange(
            i + 1,
            n as int,
        ));
        i = i + 1;
    }
    assert(trim_start(s@) == cs@.subrange(i as int, n as int));
    let mut j: usize = n;
    while j > i && is_whitespace(cs[j - 1])
        invariant
            i <= j <= n == cs@.len(),
            trim_end(cs@.subrange(i as int, n as int)) == trim_end(
                cs@.subrange(i as int, j as int),
            ),
        decreases j,
    {
        assert(cs@.subrange(i as int, j as int).drop_last() =~= cs@.subrange(
            i as int,
            j - 1,
        ));
        j = j - 1;
    }
    assert(trim_end(cs@.subrange(i as int, j as int)) == cs@.subrange(i as int, j as int));
    string_of_range(&cs, i, j)
}

// ---------------------------------------------------------------------------
// Path segments and prefixes
// ---------------------------------------------------------------------------

/// What follows the last `/` of `s`, or all of `s` when it has none: the
/// first item that `str::rsplit('/')` yields.
pub open spec fn last_segment(s: Seq<char>) -> Seq<char>
    decreases s.len(),
{
    if s.len() == 0 {
        s
    } else if s.last() == '/' {
        Seq::empty()
    } else {
        last_segment(s.drop_last()).push(s.last())
    }
}

/// The part of `s` after its last `/` (all of `s` when it has none).
pub fn last_segment_of(s: &str) -> (r: String)
    ensures
        r@ == last_segment(s@),
{
    let cs = chars_of(s);
    let n = cs.len();
    let mut j: usize = n;
    assert(cs@.subrange(0, n as int) =~= cs@);
    while j > 0 && cs[j - 1] != '/'
        invariant
            j <= n == cs@.len(),
            cs@ == s@,
            last_segment(s@) == last_segment(cs@.subrange(0, j as int)) + cs@.subrange(
                j as int,
                n as int,
            ),
        decreases j,
    {
        let ghost pre = cs@.subrange(0, j as int);
        assert(pre.drop_last() =~= cs@.subrange(0, j - 1));
        assert(cs@.subrange((j - 1) as int, n as int) =~= seq![cs@[j - 1]] + cs@.subrange(
            j as int,
            n as int,
        ));
        assert(last_segment(pre) == last_segment(cs@.subrange(0, j - 1)).push(cs@[j - 1]));
        assert(last_segment(pre) + cs@.subrange(j as int, n as int) =~= last_segment(
            cs@.subrange(0, j - 1),
        ) + cs@.subrange((j - 1) as int, n as int));
        j = j - 1;
    }
    assert(last_segment(cs@.subrange(0, j as int)) =~= Seq::<char>::empty());
    assert(Seq::<char>::empty() + cs@.subrange(j as int, n as int) =~= cs@.subrange(
        j as int,
        n as int,
    ));
    string_of_range(&cs, j, n)
}

/// Whether `prefix` is a prefix of `s`.
pub open spec fn has_prefix(s: Seq<char>, prefix: Seq<char>) -> bool {
    prefix.len() <= s.len() && s.take(prefix.len() as int) == prefix
}

/// Whether `s` starts with `prefix`.
pub fn starts_with(s: &Vec<char>, prefix: &Vec<char>) -> (r: bool)
    ensures
        r == has_prefix(s@, prefix@),
{
    if prefix.len() > s.len() {
        return false;
    }
    let mut i: usize = 0;
    while i < prefix.len()
        invariant
            i <= prefix@.len() <= s@.len(),
            forall|k: int| 0 <= k < i ==> s@[k] == prefix@[k],
        decreases prefix@.len() - i,
    {
        if s[i] != prefix[i] {
            assert(s@.take(prefix@.len() as int)[i as int] != prefix@[i as int]);
            return false;
        }
        i = i + 1;
    }
    assert(s@.take(prefix@.len() as int) =~= prefix@);
    true
}

// ---------------------------------------------------------------------------
// Unsigned integers
// ---------------------------------------------------------------------------

/// Whether `c` is one of the ASCII digits `0` to `9`.
pub open spec fn is_digit(c: char) -> bool {
    '0' <= c <= '9'
}

/// The number that a string of ASCII digits writes in decimal.
pub open spec fn digits_value(d: Seq<char>) -> nat
    decreases d.len(),
{
    if d.len() == 0 {
        0
    } else {
        digits_value(d.drop_last()) * 10 + ((d.last() as int - '0' as int) as nat)
    }
}

/// `s` without one leading `+`.
pub open spec fn unsigned_digits(s: Seq<char>) -> Seq<char> {
    if s.len() > 0 && s[0] == '+' {
        s.drop_first()
    } else {
        s
    }
}

/// What `str::parse::<u32>` gives: an optional leading `+`, then one or more
/// ASCII digits whose value fits in a `u32`.
pub open spec fn parse_u32_spec(s: Seq<char>) -> Option<u32> {
    let d = unsigned_digits(s);
    if d.len() > 0 && (forall|i: int| 0 <= i < d.len() ==> is_digit(#[trigger] d[i]))
        && digits_value(d) <= u32::MAX {
        Some(digits_value(d) as u32)
    } else {
        None
    }
}

proof fn lemma_digits_value_prefix(d: Seq<char>, i: int)
    requires
        0 <= i <= d.len(),
        forall|k: int| 0 <= k < d.len() ==> is_digit(#[trigger] d[k]),
    ensures
        digits_value(d.take(i)) <= digits_value(d),
    decreases d.len() - i,
{
    if i < d.len() {
        lemma_digits_value_prefix(d, i + 1);
        assert(d.take(i + 1).drop_last() =~= d.take(i));
    } else {
        assert(d.take(i) =~= d);
    }
}

/// Parses `s` as `str::parse::<u32>` does.
pub fn parse_u32(s: &str) -> (r: Option<u32>)
    ensures
        r == parse_u32_spec(s@),
{
    let cs = chars_of(s);
    parse_u32_chars(&cs)
}

/// Parses the characters `s` as `str::parse::<u32>` does.
pub fn parse_u32_chars(s: &Vec<char>) -> (r: Option<u32>)
    ensures
        r == parse_u32_spec(s@),
{
    let cs = s;
    let n = cs.len();
    let start: usize = if n > 0 && cs[0] == '+' {
        1
    } else {
        0
    };
    let ghost d = unsigned_digits(s@);
    assert(d =~= cs@.subrange(start as int, n as int));
    if start >= n {
        return None;
    }
    let mut value: u64 = 0;
    let mut i: usize = start;
    while i < n
        invariant
            start <= i <= n == cs@.len(),
            start < n,
            d == cs@.subrange(start as int, n as int),
            d == unsigned_digits(s@),
            forall|k: int| 0 <= k < i - start ==> is_digit(#[trigger] d[k]),
            value == digits_value(d.take(i - start)),
            value <= u32::MAX,
        decreases n - i,
    {
        let c = cs[i];
        assert(d[i - start] == c);
        if !('0' <= c && c <= '9') {
            assert(!is_digit(d[i - start]));
            return None;
        }
        let digit = (c as u32 - '0' as u32) as u64;
        assert(d.take(i + 1 - start).drop_last() =~= d.take(i - start));
        assert(d.take(i + 1 - start).last() == c);
        value = value * 10 + digit;
        i = i + 1;
        if value > 0xffff_ffff {
            proof {
                if forall|k: int| 0 <= k < d.len() ==> is_digit(#[trigger] d[k]) {
                    lemma_digits_value_prefix(d, i - start);
                }
            }
            return None;
        }
    }
    assert(d.take(n - start) =~= d);
    Some(value as u32)
}

/// The decimal digit character for `d`, where `d < 10`.
pub open spec fn digit_char(d: nat) -> char {
    ('0' as int + d) as char
}

/// The decimal representation of `n`, as `n.to_string()` writes it.
pub open spec fn decimal(n: nat) -> Seq<char>
    decreases n,
{
    if n < 10 {
        seq![digit_char(n)]
    } else {
        decimal(n / 10).push(digit_char(n % 10))
    }
}

/// Appends the decimal representation of `n` to `out`.
pub fn push_decimal(out: &mut String, n: usize)
    ensures
        final(out)@ == old(out)@ + decimal(n as nat),
    decreases n,
{
    if n >= 10 {
        push_decimal(out, n / 10);
    }
    let d = (n % 10) as u8;
    let c = (0x30u8 + d) as char;
    push_char(out, c);
    assert(c == digit_char((n % 10) as nat));
    if n >= 10 {
        assert(old(out)@ + decimal(n as nat) =~= old(out)@ + decimal((n / 10) as nat) + seq![c]);
    } else {
        assert(old(out)@ + decimal(n as nat) =~= old(out)@.push(c));
    }
}

// ---------------------------------------------------------------------------
// Words and lines
// ---------------------------------------------------------------------------

/// The maximal runs of non-whitespace characters of `s`, in order: what
/// `str::split_whitespace` yields.
pub open spec fn words(s: Seq<char>) -> Seq<Seq<char>>
    decreases s.len(),
{
    if s.len() == 0 {
        Seq::empty()
    } else {
        let prev = words(s.drop_last());
        let c = s.last();
        if is_ws(c) {
            prev
        } else if s.len() >= 2 && !is_ws(s[s.len() - 2]) {
            prev.update(prev.len() - 1, prev.last().push(c))
        } else {
            prev.push(seq![c])
        }
    }
}

/// The views of a vector of character vectors.
pub open spec fn views(v: Seq<Vec<char>>) -> Seq<Seq<char>> {
    v.map_values(|w: Vec<char>| w@)
}

/// The whitespace-separated words of `cs`.
pub fn words_of(cs: &Vec<char>) -> (r: Vec<Vec<char>>)
    ensures
        views(r@) == words(cs@),
{
    let n = cs.len();
    let mut done: Vec<Vec<char>> = Vec::new();
    let mut cur: Vec<char> = Vec::new();
    let mut in_word = false;
    let mut i: usize = 0;
    assert(cs@.take(0) =~= Seq::<char>::empty());
    assert(views(done@) =~= Seq::<Seq<char>>::empty());
    while i < n
        invariant
            i <= n == cs@.len(),
            in_word == (i > 0 && !is_ws(cs@[i - 1])),
            words(cs@.take(i as int)) == if in_word {
                views(done@).push(cur@)
            } else {
                views(done@)
            },
        decreases n - i,
    {
        let c = cs[i];
        let ghost pre = cs@.take(i as int);
        let ghost next = cs@.take(i + 1);
        assert(next.drop_last() =~= pre);
        assert(next.last() == c);
        if is_whitespace(c) {
            if in_word {
                let ghost before = done@;
                let w = cur;
                done.push(w);
                cur = Vec::new();
                assert(views(done@) =~= views(before).push(w@));
            }
            in_word = false;
        } else {
            if in_word {
                assert(next.len() >= 2 && next[next.len() - 2] == cs@[i - 1]);
                let ghost oc = cur@;
                cur.push(c);
                assert(views(done@).push(cur@) =~= views(done@).push(oc).update(
                    views(done@).len() as int,
                    oc.push(c),
                ));
            } else {
                cur = Vec::new();
                cur.push(c);
                assert(cur@ =~= seq![c]);
            }
            in_word = true;
        }
        i = i + 1;
    }
    assert(cs@.take(n as int) =~= cs@);
    if in_word {
        let ghost before = done@;
        let w = cur;
        done.push(w);
        assert(views(done@) =~= views(before).push(w@));
    }
    done
}


/// The pieces of `s` between `\n` characters (one more than there are
/// newlines).
pub open spec fn split_newlines(s: Seq<char>) -> Seq<Seq<char>>
    decreases s.len(),
{
    if s.len() == 0 {
        seq![Seq::empty()]
    } else {
        let p = split_newlines(s.drop_last());
        if s.last() == '\n' {
            p.push(Seq::empty())
        } else {
            p.update(p.len() - 1, p.last().push(s.last()))
        }
    }
}

proof fn lemma_split_newlines_nonempty(s: Seq<char>)
    ensures
        split_newlines(s).len() >= 1,
    decreases s.len(),
{
    if s.len() > 0 {
        lemma_split_newlines_nonempty(s.drop_last());
    }
}

/// `l` without one trailing carriage return.
pub open spec fn strip_cr(l: Seq<char>) -> Seq<char> {
    if l.len() > 0 && l.last() == '\r' {
        l.drop_last()
    } else {
        l
    }
}

/// The lines of `s`, as `str::lines` yields them: split at each `\n`, a
/// `\r` before the `\n` dropped, and no empty last line after a final `\n`.
pub open spec fn lines(s: Seq<char>) -> Seq<Seq<char>> {
    let p = split_newlines(s);
    let body = p.drop_last().map_values(|l: Seq<char>| strip_cr(l));
    if p.last().len() == 0 {
        body
    } else {
        body.push(p.last())
    }
}

/// The lines of `cs`.
pub fn lines_of(cs: &Vec<char>) -> (r: Vec<Vec<char>>)
    ensures
        views(r@) == lines(cs@),
{
    let n = cs.len();
    let mut done: Vec<Vec<char>> = Vec::new();
    let mut cur: Vec<char> = Vec::new();
    let mut i: usize = 0;
    assert(cs@.take(0) =~= Seq::<char>::empty());
    assert(views(done@) =~= Seq::<Seq<char>>::empty());
    assert(split_newlines(Seq::<char>::empty()).drop_last().map_values(|l: Seq<char>| strip_cr(l))
        =~= Seq::<Seq<char>>::empty());
    while i < n
        invariant
            i <= n == cs@.len(),
            views(done@) == split_newlines(cs@.take(i as int)).drop_last().map_values(
                |l: Seq<char>| strip_cr(l),
            ),
            cur@ == split_newlines(cs@.take(i as int)).last(),
        decreases n - i,
    {
        let c = cs[i];
        let ghost pre = cs@.take(i as int);
        let ghost next = cs@.take(i + 1);
        let ghost p = split_newlines(pre);
        proof {
            lemma_split_newlines_nonempty(pre);
        }
        assert(next.drop_last() =~= pre);
        assert(next.last() == c);
        if c == '\n' {
            let ghost before = done@;
            let mut line = cur;
            let len = line.len();
            if len > 0 && line[len - 1] == '\r' {
                line.pop();
            }
            assert(line@ == strip_cr(p.last()));
            done.push(line);
            cur = Vec::new();
            assert(views(done@) =~= views(before).push(line@));
            assert(split_newlines(next) == p.push(Seq::<char>::empty()));
            assert(p.push(Seq::<char>::empty()).drop_last() =~= p);
            assert(p.map_values(|l: Seq<char>| strip_cr(l)) =~= p.drop_last().map_values(
                |l: Seq<char>| strip_cr(l),
            ).push(strip_cr(p.last())));
            assert(cur@ =~= Seq::<char>::empty());
        } else {
            cur.push(c);
            assert(split_newlines(next) == p.update(p.len() - 1, p.last().push(c)));
            assert(p.update(p.len() - 1, p.last().push(c)).drop_last() =~= p.drop_last());
        }
        i = i + 1;
    }
    assert(cs@.take(n as int) =~= cs@);
    if cur.len() == 0 {
        done
    } else {
        let ghost before = done@;
        done.push(cur);
        assert(views(done@) =~= views(before).push(split_newlines(cs@).last()));
        done
    }
}

/// `s` split at its first space: what precedes it, and what follows it if
/// there is one (the two items that `str::splitn(2, ' ')` yields).
pub open spec fn split_first_space(s: Seq<char>) -> (Seq<char>, Option<Seq<char>>)
    decreases s.len(),
{
    if s.len() == 0 {
        (s, None)
    } else if s[0] == ' ' {
        (Seq::empty(), Some(s.drop_first()))
    } else {
        let (a, b) = split_first_space(s.drop_first());
        (seq![s[0]] + a, b)
    }
}

/// The characters `cs[from..to]` as a vector.
pub fn sub_chars(cs: &Vec<char>, from: usize, to: usize) -> (r: Vec<char>)
    requires
        from <= to <= cs@.len(),
    ensures
        r@ == cs@.subrange(from as int, to as int),
{
    let mut r: Vec<char> = Vec::new();
    let mut i = from;
    while i < to
        invariant
            from <= i <= to <= cs@.len(),
            r@ == cs@.subrange(from as int, i as int),
        decreases to - i,
    {
        r.push(cs[i]);
        i = i + 1;
        assert(r@ =~= cs@.subrange(from as int, i as int));
    }
    r
}

/// Splits `cs` at its first space.
pub fn split_at_first_space(cs: &Vec<char>) -> (r: (Vec<char>, Option<Vec<char>>))
    ensures
        r.0@ == split_first_space(cs@).0,
        r.1 is Some == split_first_space(cs@).1 is Some,
        r.1 is Some ==> r.1->0@ == split_first_space(cs@).1->0,
{
    let n = cs.len();
    let mut i: usize = 0;
    assert(cs@.skip(0) =~= cs@);
    assert(cs@.take(0) + split_first_space(cs@).0 =~= split_first_space(cs@).0);
    while i < n && cs[i] != ' '
        invariant
            i <= n == cs@.len(),
            split_first_space(cs@).0 == cs@.take(i as int) + split_first_space(cs@.skip(i as int)).0,
            split_first_space(cs@).1 == split_first_space(cs@.skip(i as int)).1,
        decreases n - i,
    {
        let ghost rest = cs@.skip(i as int);
        assert(rest.drop_first() =~= cs@.skip(i + 1));
        assert(rest[0] == cs@[i as int]);
        assert(cs@.take(i as int) + split_first_space(rest).0 =~= cs@.take(i + 1)
            + split_first_space(cs@.skip(i + 1)).0);
        i = i + 1;
    }
    if i == n {
        assert(cs@.skip(n as int) =~= Seq::<char>::empty());
        assert(cs@.take(n as int) + Seq::<char>::empty() =~= cs@);
        (sub_chars(cs, 0, n), None)
    } else {
        assert(cs@.skip(i as int)[0] == ' ');
        assert(cs@.skip(i as int).drop_first() =~= cs@.subrange(i + 1, n as int));
        assert(cs@.take(i as int) + Seq::<char>::empty() =~= cs@.subrange(0, i as int));
        (sub_chars(cs, 0, i), Some(sub_chars(cs, i + 1, n)))
    }
}

/// `s` padded on the right with spaces to at least `width` characters, as
/// the format `{:<width}` writes a string.
pub open spec fn pad_right(s: Seq<char>, width: nat) -> Seq<char> {
    if s.len() >= width {
        s
    } else {
        s + Seq::new((width - s.len()) as nat, |i: int| ' ')
    }
}

/// `s` padded on the right with spaces to at least `width` characters.
pub fn pad_to(s: &str, width: usize) -> (r: String)
    ensures
        r@ == pad_right(s@, width as nat),
{
    let cs = chars_of(s);
    let mut r = copy_str(s);
    let mut len = cs.len();
    while len < width
        invariant
            cs@ == s@,
            cs@.len() <= len,
            len > cs@.len() ==> len <= width,
            len == r@.len(),
            r@ == s@ + Seq::new((len - cs@.len()) as nat, |i: int| ' '),
        decreases width - len,
    {
        push_char(&mut r, ' ');
        len = len + 1;
        assert(r@ =~= s@ + Seq::new((len - cs@.len()) as nat, |i: int| ' '));
    }
    if cs.len() >= width {
        assert(len == cs@.len());
        assert(r@ =~= s@);
    } else {
        assert(len == width);
    }
    r
}

// ---------------------------------------------------------------------------
// Laws
// ---------------------------------------------------------------------------

/// Splitting at the first space loses nothing: the first part holds no
/// space, and when there is a second part the text is the first part, a
/// space and the second part; when there is none, the text is the first
/// part.
pub proof fn split_at_first_space_law(s: Seq<char>)
    ensures
        forall|i: int| 0 <= i < split_first_space(s).0.len() ==> split_first_space(s).0[i] != ' ',
        split_first_space(s).1 matches Some(b) ==> s == split_first_space(s).0 + seq![' '] + b,
        split_first_space(s).1 is None ==> s == split_first_space(s).0,
    decreases s.len(),
{
    if s.len() > 0 {
        if s[0] == ' ' {
            assert(s =~= Seq::<char>::empty() + seq![' '] + s.drop_first());
        } else {
            split_at_first_space_law(s.drop_first());
            let (a, b) = split_first_space(s.drop_first());
            assert(split_first_space(s).0 == seq![s[0]] + a);
            assert forall|i: int| 0 <= i < split_first_space(s).0.len() implies split_first_space(s).0[i]
                != ' ' by {
                if i > 0 {
                    assert(split_first_space(s).0[i] == a[i - 1]);
                }
            }
            if b is Some {
                assert(s.drop_first() == a + seq![' '] + b->0);
                assert(s =~= seq![s[0]] + s.drop_first());
                assert(s =~= seq![s[0]] + a + seq![' '] + b->0);
            } else {
                assert(s =~= seq![s[0]] + a);
            }
        }
    }
}

/// The last segment of a path is the end of the path after its last `/`:
/// it holds no `/`, the path ends with it, and the character before it, if
/// any, is a `/`.
pub proof fn last_segment_law(s: Seq<char>)
    ensures
        last_segment(s).len() <= s.len(),
        s.subrange(s.len() - last_segment(s).len(), s.len() as int) == last_segment(s),
        forall|i: int| 0 <= i < last_segment(s).len() ==> last_segment(s)[i] != '/',
        last_segment(s).len() < s.len() ==> s[s.len() - last_segment(s).len() - 1] == '/',
    decreases s.len(),
{
    if s.len() > 0 && s.last() != '/' {
        let p = s.drop_last();
        last_segment_law(p);
        let t = last_segment(p);
        assert(last_segment(s) == t.push(s.last()));
        assert(s.subrange(s.len() - t.len() - 1, s.len() as int) =~= p.subrange(
            p.len() - t.len(),
            p.len() as int,
        ).push(s.last()));
        assert forall|i: int| 0 <= i < last_segment(s).len() implies last_segment(s)[i] != '/' by {
            if i < t.len() {
                assert(last_segment(s)[i] == t[i]);
            }
        }
        if t.len() < p.len() {
            assert(s[s.len() - t.len() - 2] == p[p.len() - t.len() - 1]);
        }
    } else if s.len() > 0 {
        assert(s.subrange(s.len() as int, s.len() as int) =~= Seq::<char>::empty());
    }
}

proof fn lemma_trim_start(s: Seq<char>)
    ensures
        trim_start(s).len() <= s.len(),
        trim_start(s) == s.subrange(s.len() - trim_start(s).len(), s.len() as int),
        forall|k: int| 0 <= k < s.len() - trim_start(s).len() ==> is_ws(#[trigger] s[k]),
        trim_start(s).len() > 0 ==> !is_ws(trim_start(s)[0]),
    decreases s.len(),
{
    if s.len() > 0 && is_ws(s[0]) {
        let t = s.drop_first();
        lemma_trim_start(t);
        assert(t.subrange(t.len() - trim_start(t).len(), t.len() as int) =~= s.subrange(
            s.len() - trim_start(t).len(),
            s.len() as int,
        ));
        assert forall|k: int| 0 <= k < s.len() - trim_start(s).len() implies is_ws(#[trigger] s[k]) by {
            if k > 0 {
                assert(s[k] == t[k - 1]);
            }
        }
    } else {
        assert(s.subrange(0, s.len() as int) =~= s);
    }
}

proof fn lemma_trim_end(s: Seq<char>)
    ensures
        trim_end(s).len() <= s.len(),
        trim_end(s) == s.subrange(0, trim_end(s).len() as int),
        forall|k: int| trim_end(s).len() <= k < s.len() ==> is_ws(#[trigger] s[k]),
        trim_end(s).len() > 0 ==> !is_ws(trim_end(s).last()),
    decreases s.len(),
{
    if s.len() > 0 && is_ws(s.last()) {
        let t = s.drop_last();
        lemma_trim_end(t);
        assert(t.subrange(0, trim_end(t).len() as int) =~= s.subrange(0, trim_end(t).len() as int));
        assert forall|k: int| trim_end(s).len() <= k < s.len() implies is_ws(#[trigger] s[k]) by {
            if k < s.len() - 1 {
                assert(s[k] == t[k]);
            }
        }
    } else {
        assert(s.subrange(0, s.len() as int) =~= s);
    }
}

/// Trimming removes whitespace at both ends and nothing else: the result
/// is a contiguous part of the text, everything before and after it is
/// whitespace, and it neither starts nor ends with whitespace.
pub proof fn trim_law(s: Seq<char>)
    ensures
        exists|i: int|
            #![trigger s.subrange(i, i + trimmed(s).len())]
            0 <= i && i + trimmed(s).len() <= s.len() && s.subrange(i, i + trimmed(s).len())
                == trimmed(s) && (forall|k: int| 0 <= k < i ==> is_ws(#[trigger] s[k])) && (forall|
                k: int,
            | i + trimmed(s).len() <= k < s.len() ==> is_ws(#[trigger] s[k])),
        trimmed(s).len() > 0 ==> !is_ws(trimmed(s)[0]) && !is_ws(trimmed(s).last()),
{
    lemma_trim_start(s);
    let a = trim_start(s);
    lemma_trim_end(a);
    let t = trim_end(a);
    let i = s.len() - a.len();
    assert(s.subrange(i, i + t.len()) =~= a.subrange(0, t.len() as int));
    assert forall|k: int| i + t.len() <= k < s.len() implies is_ws(#[trigger] s[k]) by {
        assert(s[k] == a[k - i]);
    }
    if t.len() > 0 {
        assert(t[0] == a[0]);
    }
    assert(trimmed(s) == t);
    assert(0 <= i && i + t.len() <= s.len() && s.subrange(i, i + t.len()) == t && (forall|k: int|
        0 <= k < i ==> is_ws(#[trigger] s[k])) && (forall|k: int|
        i + t.len() <= k < s.len() ==> is_ws(#[trigger] s[k])));
}

proof fn lemma_decimal(n: nat)
    ensures
        decimal(n).len() > 0,
        forall|i: int| 0 <= i < decimal(n).len() ==> is_digit(#[trigger] decimal(n)[i]),
        digits_value(decimal(n)) == n,
    decreases n,
{
    let d = (n % 10) as nat;
    assert(digit_char(d) as int == '0' as int + d);
    if n < 10 {
        assert(decimal(n).drop_last() =~= Seq::<char>::empty());
        assert(n % 10 == n);
        assert(decimal(n).last() == digit_char(d));
        assert(digits_value(Seq::<char>::empty()) == 0);
    }
    if n >= 10 {
        lemma_decimal(n / 10);
        let p = decimal(n / 10);
        assert(decimal(n).drop_last() =~= p);
        assert(decimal(n).last() == digit_char(d));
        assert(n == (n / 10) * 10 + n % 10) by (nonlinear_arith);
        assert(digits_value(decimal(n)) == digits_value(p) * 10 + d);
        assert forall|i: int| 0 <= i < decimal(n).len() implies is_digit(#[trigger] decimal(n)[i]) by {
            if i < p.len() {
                assert(decimal(n)[i] == p[i]);
            }
        }
    }
}

/// Writing a number in decimal and parsing it back gives the number, with
/// or without a leading `+`; a leading `-`, an empty text, or a lone `+`
/// does not parse.
pub proof fn decimal_parses_back(n: u32)
    ensures
        parse_u32_spec(decimal(n as nat)) == Some(n),
        parse_u32_spec(seq!['+'] + decimal(n as nat)) == Some(n),
        parse_u32_spec(seq!['-'] + decimal(n as nat)) is None,
        parse_u32_spec(Seq::<char>::empty()) is None,
        parse_u32_spec(seq!['+']) is None,
{
    lemma_decimal(n as nat);
    let d = decimal(n as nat);
    assert(d[0] != '+');
    assert(unsigned_digits(d) == d);
    assert((seq!['+'] + d).drop_first() =~= d);
    let m = seq!['-'] + d;
    assert(unsigned_digits(m) == m);
    assert(!is_digit(m[0]));
    assert(seq!['+'].drop_first() =~= Seq::<char>::empty());
}

/// A text of ASCII digits whose value exceeds `u32::MAX` does not parse.
pub proof fn too_large_does_not_parse(d: Seq<char>)
    requires
        d.len() > 0,
        forall|i: int| 0 <= i < d.len() ==> is_digit(#[trigger] d[i]),
        digits_value(d) > u32::MAX,
    ensures
        parse_u32_spec(d) is None,
{
    assert(is_digit(d[0]));
    assert(unsigned_digits(d) == d);
}

/// Padding keeps the text and adds spaces up to the width: the result is
/// the text followed only by spaces, and it is as long as the width, or as
/// the text when that is longer.
pub proof fn padding_law(s: Seq<char>, width: nat)
    ensures
        pad_right(s, width).len() == if s.len() >= width {
            s.len()
        } else {
            width
        },
        pad_right(s, width).take(s.len() as int) == s,
        forall|i: int| s.len() <= i < pad_right(s, width).len() ==> #[trigger] pad_right(s, width)[i] == ' ',
{
    assert(pad_right(s, width).take(s.len() as int) =~= s);
}

/// Every word is a non-empty run of characters that are not whitespace.
pub proof fn words_law(s: Seq<char>)
    ensures
        forall|k: int| 0 <= k < words(s).len() ==> (#[trigger] words(s)[k]).len() > 0,
        forall|k: int, i: int|
            0 <= k < words(s).len() && 0 <= i < words(s)[k].len() ==> !is_ws(#[trigger] words(s)[k][i]),
    decreases s.len(),
{
    if s.len() > 0 {
        let p = s.drop_last();
        words_law(p);
        let prev = words(p);
        let c = s.last();
        if !is_ws(c) && s.len() >= 2 && !is_ws(s[s.len() - 2]) {
            assert(p.last() == s[s.len() - 2]);
            lemma_words_end(p);
            let w = prev.last().push(c);
            assert forall|k: int, i: int|
                0 <= k < words(s).len() && 0 <= i < words(s)[k].len() implies !is_ws(
                #[trigger] words(s)[k][i],
            ) by {
                if k < prev.len() - 1 {
                    assert(words(s)[k] == prev[k]);
                } else if i < prev.last().len() {
                    assert(words(s)[k][i] == prev[k][i]);
                }
            }
        }
    }
}

/// Words are read one after another: after text that is empty or ends in
/// whitespace, a run of non-whitespace characters adds one word, and
/// whitespace adds none.
pub proof fn words_add_one_word(s: Seq<char>, w: Seq<char>, c: char)
    requires
        s.len() == 0 || is_ws(s.last()),
        w.len() > 0,
        forall|i: int| 0 <= i < w.len() ==> !is_ws(#[trigger] w[i]),
    ensures
        words(s + w) == words(s).push(w),
        is_ws(c) ==> words(s.push(c)) == words(s),
    decreases w.len(),
{
    assert(s.push(c).drop_last() =~= s);
    if w.len() == 1 {
        assert((s + w).drop_last() =~= s);
        assert(w =~= seq![w[0]]);
        assert((s + w).last() == w[0]);
    } else {
        let m = w.drop_last();
        words_add_one_word(s, m, c);
        assert((s + w).drop_last() =~= s + m);
        assert((s + w).last() == w.last());
        assert((s + w)[(s + w).len() - 2] == m.last());
        let prev = words(s + m);
        assert(prev.last().push(w.last()) =~= w);
        assert(prev.update(prev.len() - 1, w) =~= words(s).push(w));
    }
}

proof fn lemma_words_end(p: Seq<char>)
    requires
        p.len() > 0,
        !is_ws(p.last()),
    ensures
        words(p).len() > 0,
    decreases p.len(),
{
    if p.len() >= 2 && !is_ws(p[p.len() - 2]) {
        assert(p.drop_last().last() == p[p.len() - 2]);
        lemma_words_end(p.drop_last());
    }
}

proof fn lemma_split_newlines_append(s: Seq<char>, l: Seq<char>)
    requires
        forall|i: int| 0 <= i < l.len() ==> l[i] != '\n',
    ensures
        split_newlines(s + l) == split_newlines(s).update(
            split_newlines(s).len() - 1,
            split_newlines(s).last() + l,
        ),
    decreases l.len(),
{
    lemma_split_newlines_nonempty(s);
    if l.len() == 0 {
        assert(s + l =~= s);
        assert(split_newlines(s).last() + l =~= split_newlines(s).last());
        assert(split_newlines(s).update(split_newlines(s).len() - 1, split_newlines(s).last())
            =~= split_newlines(s));
    } else {
        let m = l.drop_last();
        lemma_split_newlines_append(s, m);
        assert((s + l).drop_last() =~= s + m);
        assert((s + l).last() == l.last());
        let p = split_newlines(s);
        let q = split_newlines(s + m);
        assert(q.len() == p.len());
        assert(q.last() == p.last() + m);
        assert((p.last() + m).push(l.last()) =~= p.last() + l);
        assert(split_newlines(s + l) == q.update(q.len() - 1, q.last().push(l.last())));
        assert(split_newlines(s + m).update(
            split_newlines(s + m).len() - 1,
            split_newlines(s + m).last().push(l.last()),
        ) =~= p.update(p.len() - 1, p.last() + l));
    }
}

/// Lines are read one after another: after text that is empty or ends in a
/// newline, one more line without a newline adds that line, and with a
/// newline after it adds it without a final carriage return. No line of
/// the text is dropped.
pub proof fn lines_add_one_line(s: Seq<char>, l: Seq<char>)
    requires
        s.len() == 0 || s.last() == '\n',
        l.len() > 0,
        forall|i: int| 0 <= i < l.len() ==> l[i] != '\n',
    ensures
        lines(s + l) == lines(s).push(l),
        lines(s + l + seq!['\n']) == lines(s).push(strip_cr(l)),
{
    lemma_split_newlines_nonempty(s);
    let p = split_newlines(s);
    assert(p.last() == Seq::<char>::empty()) by {
        if s.len() > 0 {
            assert(split_newlines(s) == split_newlines(s.drop_last()).push(Seq::<char>::empty()));
        }
    }
    lemma_split_newlines_append(s, l);
    let q = split_newlines(s + l);
    assert(Seq::<char>::empty() + l =~= l);
    assert(q =~= p.drop_last().push(l));
    assert(q.drop_last() =~= p.drop_last());
    assert((s + l + seq!['\n']).drop_last() =~= s + l);
    let r = split_newlines(s + l + seq!['\n']);
    assert(r == q.push(Seq::<char>::empty()));
    assert(r.drop_last() =~= q);
    assert(q.map_values(|x: Seq<char>| strip_cr(x)) =~= p.drop_last().map_values(
        |x: Seq<char>| strip_cr(x),
    ).push(strip_cr(l)));
    assert(lines(s + l) =~= lines(s).push(l));
}

} // verus!
