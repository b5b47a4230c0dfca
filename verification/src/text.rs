//! Verified text utilities: character classes, decimal parsing and
//! rendering, field splitting, whitespace tokens, and substring search.
//! These are the pure building blocks of the log relay, the port
//! reaper and the telemetry poller.

use vstd::prelude::*;

verus! {

/// ASCII whitespace, as it occurs in the machine-written inputs this
/// library parses (netstat listings, one-line telemetry records).
pub open spec fn is_space_char(c: char) -> bool {
    c == ' ' || c == '\t' || c == '\r' || c == '\n'
}

pub open spec fn is_digit_char(c: char) -> bool {
    '0' <= c && c <= '9'
}

pub open spec fn digit_val(c: char) -> nat
    recommends
        is_digit_char(c),
{
    ((c as int) - ('0' as int)) as nat
}

pub open spec fn all_digits(s: Seq<char>) -> bool {
    forall|i: int| 0 <= i < s.len() ==> is_digit_char(#[trigger] s[i])
}

/// The number denoted by a sequence of decimal digits, most
/// significant first.
pub open spec fn digits_value(s: Seq<char>) -> nat
    decreases s.len(),
{
    if s.len() == 0 {
        0
    } else {
        digits_value(s.drop_last()) * 10 + digit_val(s.last())
    }
}

/// A digit prefix never denotes more than the whole digit string.
pub proof fn lemma_digits_value_take_le(s: Seq<char>, i: int)
    requires
        0 <= i <= s.len(),
    ensures
        digits_value(s.take(i)) <= digits_value(s),
    decreases s.len() - i,
{
    if i < s.len() {
        assert(s.take(i + 1).drop_last() =~= s.take(i));
        assert(digits_value(s.take(i)) <= digits_value(s.take(i + 1)));
        lemma_digits_value_take_le(s, i + 1);
    } else {
        assert(s.take(i) =~= s);
    }
}

/// String equality on views; used to match application identifiers.
pub fn str_eq(a: &str, b: &str) -> (r: bool)
    ensures
        r == (a@ == b@),
{
    a.to_owned() == b.to_owned()
}

fn digit_of(c: char) -> (d: u32)
    requires
        is_digit_char(c),
    ensures
        d == digit_val(c),
        d <= 9,
{
    (c as u32) - ('0' as u32)
}

/// The digit part of an unsigned decimal literal: everything after an
/// optional leading `+`.
pub open spec fn strip_plus(s: Seq<char>) -> Seq<char> {
    if s.len() > 0 && s[0] == '+' {
        s.drop_first()
    } else {
        s
    }
}

/// The digit part of a signed decimal literal: everything after an
/// optional leading sign.
pub open spec fn strip_sign(s: Seq<char>) -> Seq<char> {
    if s.len() > 0 && (s[0] == '-' || s[0] == '+') {
        s.drop_first()
    } else {
        s
    }
}

/// Reads an unsigned decimal number, as `str::parse::<u32>` does: an
/// optional leading `+`, then at least one digit, and the value must
/// fit in the type.
pub open spec fn parse_u32_spec(s: Seq<char>) -> Option<u32> {
    let t = strip_plus(s);
    if t.len() > 0 && all_digits(t) && digits_value(t) <= u32::MAX {
        Some(digits_value(t) as u32)
    } else {
        None
    }
}

pub fn parse_u32(s: &str) -> (r: Option<u32>)
    ensures
        r == parse_u32_spec(s@),
{
    let n = s.unicode_len();
    let start: usize = if n > 0 && s.get_char(0) == '+' {
        1
    } else {
        0
    };
    let ghost t: Seq<char> = strip_plus(s@);
    assert(t =~= s@.subrange(start as int, n as int));
    if n == start {
        return None;
    }
    let mut acc: u32 = 0;
    let mut i: usize = start;
    while i < n
        invariant
            start <= i <= n,
            n == s@.len(),
            t == strip_plus(s@),
            t =~= s@.subrange(start as int, n as int),
            all_digits(t.take(i - start)),
            acc == digits_value(t.take(i - start)),
        decreases n - i,
    {
        let c = s.get_char(i);
        if !(c >= '0' && c <= '9') {
            assert(!is_digit_char(t[i - start]));
            return None;
        }
        let d = digit_of(c);
        let next = match acc.checked_mul(10) {
            Some(m) => m.checked_add(d),
            None => None,
        };
        assert(t[i - start] == c);
        assert(t.take(i - start + 1).drop_last() =~= t.take(i - start));
        assert(t.take(i - start + 1).last() == t[i - start]);
        assert(digits_value(t.take(i - start + 1)) == digits_value(t.take(i - start)) * 10
            + digit_val(c));
        match next {
            Some(v) => {
                acc = v;
            },
            None => {
                proof {
                    lemma_digits_value_take_le(t, i - start + 1);
                }
                return None;
            },
        }
        i = i + 1;
    }
    assert(t.take(n - start) =~= t);
    Some(acc)
}

/// Reads a signed decimal number, as `str::parse::<i64>` does: an
/// optional sign, then at least one digit, and the value must fit.
pub open spec fn parse_i64_spec(s: Seq<char>) -> Option<i64> {
    let t = strip_sign(s);
    let negative = s.len() > 0 && s[0] == '-';
    if negative {
        if t.len() > 0 && all_digits(t) && digits_value(t) <= 0x8000_0000_0000_0000 {
            Some((0 - digits_value(t)) as i64)
        } else {
            None
        }
    } else {
        if t.len() > 0 && all_digits(t) && digits_value(t) <= i64::MAX {
            Some(digits_value(t) as i64)
        } else {
            None
        }
    }
}

pub fn parse_i64(s: &str) -> (r: Option<i64>)
    ensures
        r == parse_i64_spec(s@),
{
    let n = s.unicode_len();
    let negative: bool = n > 0 && s.get_char(0) == '-';
    let start: usize = if n > 0 && (s.get_char(0) == '-' || s.get_char(0) == '+') {
        1
    } else {
        0
    };
    let ghost t: Seq<char> = strip_sign(s@);
    assert(t =~= s@.subrange(start as int, n as int));
    if n == start {
        return None;
    }
    let mut acc: u64 = 0;
    let mut i: usize = start;
    while i < n
        invariant
            start <= i <= n,
            n == s@.len(),
            t == strip_sign(s@),
            negative == (s@.len() > 0 && s@[0] == '-'),
            t =~= s@.subrange(start as int, n as int),
            all_digits(t.take(i - start)),
            acc == digits_value(t.take(i - start)),
        decreases n - i,
    {
        let c = s.get_char(i);
        if !(c >= '0' && c <= '9') {
            assert(!is_digit_char(t[i - start]));
            return None;
        }
        let d = digit_of(c) as u64;
        let next = match acc.checked_mul(10) {
            Some(m) => m.checked_add(d),
            None => None,
        };
        assert(t[i - start] == c);
        assert(t.take(i - start + 1).drop_last() =~= t.take(i - start));
        assert(t.take(i - start + 1).last() == t[i - start]);
        assert(digits_value(t.take(i - start + 1)) == digits_value(t.take(i - start)) * 10
            + digit_val(c));
        match next {
            Some(v) => {
                acc = v;
            },
            None => {
                proof {
                    lemma_digits_value_take_le(t, i - start + 1);
                }
                return None;
            },
        }
        i = i + 1;
    }
    assert(t.take(n - start) =~= t);
    if negative {
        if acc < 0x8000_0000_0000_0000 {
            Some(0i64 - (acc as i64))
        } else if acc == 0x8000_0000_0000_0000 {
            Some(i64::MIN)
        } else {
            None
        }
    } else {
        if acc <= i64::MAX as u64 {
            Some(acc as i64)
        } else {
            None
        }
    }
}

pub open spec fn digit_char_of(d: nat) -> char
    recommends
        d < 10,
{
    ((48 + d) as u8) as char
}

/// The decimal rendering of a number, most significant digit first.
pub open spec fn dec_digits(n: nat) -> Seq<char>
    decreases n,
{
    if n < 10 {
        seq![digit_char_of(n)]
    } else {
        dec_digits(n / 10).push(digit_char_of(n % 10))
    }
}

/// Appends the decimal rendering of `n` to `out`.
pub fn push_dec_digits(n: u64, out: &mut Vec<char>)
    ensures
        final(out)@ == old(out)@ + dec_digits(n as nat),
    decreases n,
{
    if n < 10 {
        let c: char = ((48 + n as u8)) as char;
        assert(c == digit_char_of(n as nat));
        out.push(c);
        assert(out@ =~= old(out)@ + dec_digits(n as nat));
    } else {
        push_dec_digits(n / 10, out);
        let c: char = ((48 + (n % 10) as u8)) as char;
        assert(c == digit_char_of((n as nat) % 10));
        out.push(c);
        assert(out@ =~= old(out)@ + dec_digits(n as nat));
    }
}

/// The views of a sequence of strings.
pub open spec fn views_of(v: Seq<String>) -> Seq<Seq<char>> {
    v.map_values(|x: String| x@)
}

/// Splitting at every occurrence of a separator, as `str::split` does:
/// the result always has one more field than there are separators, and
/// an empty input yields one empty field.
pub open spec fn split_fields(s: Seq<char>, sep: char) -> Seq<Seq<char>>
    decreases s.len(),
{
    if s.len() == 0 {
        seq![Seq::<char>::empty()]
    } else {
        let rest = split_fields(s.drop_first(), sep);
        if s[0] == sep {
            seq![Seq::<char>::empty()] + rest
        } else {
            seq![seq![s[0]] + rest[0]] + rest.drop_first()
        }
    }
}

pub proof fn lemma_split_fields_len(s: Seq<char>, sep: char)
    ensures
        split_fields(s, sep).len() >= 1,
    decreases s.len(),
{
    if s.len() > 0 {
        lemma_split_fields_len(s.drop_first(), sep);
    }
}

/// Splitting a string whose first `k` characters are free of the
/// separator prepends those characters to the first field of the rest.
pub proof fn lemma_split_fields_prefix(s: Seq<char>, sep: char, k: int)
    requires
        0 <= k <= s.len(),
        forall|j: int| 0 <= j < k ==> s[j] != sep,
    ensures
        split_fields(s, sep) == seq![s.take(k) + split_fields(s.skip(k), sep)[0]]
            + split_fields(s.skip(k), sep).drop_first(),
    decreases k,
{
    lemma_split_fields_len(s, sep);
    lemma_split_fields_len(s.skip(k), sep);
    if k == 0 {
        assert(s.skip(0) =~= s);
        assert(s.take(0) + split_fields(s, sep)[0] =~= split_fields(s, sep)[0]);
        assert(seq![split_fields(s, sep)[0]] + split_fields(s, sep).drop_first() =~~= split_fields(
            s,
            sep,
        ));
    } else {
        let s1 = s.drop_first();
        lemma_split_fields_prefix(s1, sep, k - 1);
        lemma_split_fields_len(s1.skip(k - 1), sep);
        assert(s1.skip(k - 1) =~= s.skip(k));
        assert(seq![s[0]] + s1.take(k - 1) =~= s.take(k));
        let tail = split_fields(s.skip(k), sep);
        assert(split_fields(s1, sep) == seq![s1.take(k - 1) + tail[0]] + tail.drop_first());
        assert(split_fields(s1, sep)[0] == s1.take(k - 1) + tail[0]);
        assert(seq![s[0]] + (s1.take(k - 1) + tail[0]) =~= s.take(k) + tail[0]);
        assert(split_fields(s1, sep).drop_first() =~= tail.drop_first());
        assert(split_fields(s, sep) =~~= seq![s.take(k) + tail[0]] + tail.drop_first());
    }
}

/// Splits a string at every occurrence of `sep`.
pub fn split_on(s: &str, sep: char) -> (fields: Vec<String>)
    ensures
        views_of(fields@) == split_fields(s@, sep),
        fields@.len() >= 1,
{
    let n = s.unicode_len();
    let mut fields: Vec<String> = Vec::new();
    proof {
        assert(s@.skip(0) =~= s@);
        assert(views_of(fields@) + split_fields(s@, sep) =~~= split_fields(s@, sep));
    }
    let mut start: usize = 0;
    let mut i: usize = 0;
    while i < n
        invariant
            0 <= start <= i <= n,
            n == s@.len(),
            forall|j: int| start <= j < i ==> s@[j] != sep,
            split_fields(s@, sep) == views_of(fields@) + split_fields(s@.skip(start as int), sep),
        decreases n - i,
    {
        let c = s.get_char(i);
        if c == sep {
            let field = s.substring_char(start, i).to_owned();
            proof {
                lemma_split_fields_prefix(s@.skip(start as int), sep, i - start);
                assert(s@.skip(start as int).skip(i - start) =~= s@.skip(i as int));
                assert(s@.skip(i as int)[0] == sep);
                assert(split_fields(s@.skip(i as int), sep) == seq![Seq::<char>::empty()]
                    + split_fields(s@.skip(i as int).drop_first(), sep));
                assert(s@.skip(i as int).drop_first() =~= s@.skip(i + 1));
                assert(split_fields(s@.skip(i as int), sep)[0] =~= Seq::<char>::empty());
                assert(s@.skip(start as int).take(i - start) =~= s@.subrange(
                    start as int,
                    i as int,
                ));
                assert(s@.skip(start as int).take(i - start) + split_fields(
                    s@.skip(i as int),
                    sep,
                )[0] =~= field@);
                assert(split_fields(s@.skip(i as int), sep).drop_first() =~~= split_fields(
                    s@.skip(i + 1),
                    sep,
                ));
                assert(split_fields(s@.skip(start as int), sep) =~~= seq![field@] + split_fields(
                    s@.skip(i + 1),
                    sep,
                ));
                assert(views_of(fields@.push(field)) =~~= views_of(fields@).push(field@));
                assert(views_of(fields@) + (seq![field@] + split_fields(s@.skip(i + 1), sep))
                    =~~= views_of(fields@.push(field)) + split_fields(s@.skip(i + 1), sep));
            }
            fields.push(field);
            start = i + 1;
        }
        i = i + 1;
    }
    let field = s.substring_char(start, n).to_owned();
    proof {
        lemma_split_fields_prefix(s@.skip(start as int), sep, n - start);
        assert(s@.skip(start as int).skip(n - start) =~= Seq::<char>::empty());
        assert(split_fields(Seq::<char>::empty(), sep) == seq![Seq::<char>::empty()]);
        assert(s@.skip(start as int).take(n - start) =~= s@.subrange(start as int, n as int));
        assert(s@.skip(start as int).take(n - start) + split_fields(
            Seq::<char>::empty(),
            sep,
        )[0] =~= field@);
        assert(split_fields(s@.skip(start as int), sep) =~~= seq![field@]);
        assert(views_of(fields@.push(field)) =~~= views_of(fields@).push(field@));
        assert(views_of(fields@) + seq![field@] =~~= views_of(fields@.push(field)));
    }
    fields.push(field);
    fields
}

/// Splitting one more character: a separator opens a new empty field,
/// anything else extends the last field.
pub proof fn lemma_split_fields_snoc(s: Seq<char>, c: char, sep: char)
    ensures
        c == sep ==> split_fields(s.push(c), sep) == split_fields(s, sep).push(
            Seq::<char>::empty(),
        ),
        c != sep ==> split_fields(s.push(c), sep) == split_fields(s, sep).update(
            split_fields(s, sep).len() - 1,
            split_fields(s, sep).last().push(c),
        ),
    decreases s.len(),
{
    lemma_split_fields_len(s, sep);
    if s.len() == 0 {
        assert(s.push(c).drop_first() =~= s);
        assert(s.push(c)[0] == c);
        if c == sep {
            assert(split_fields(s.push(c), sep) =~~= split_fields(s, sep).push(
                Seq::<char>::empty(),
            ));
        } else {
            assert(seq![s.push(c)[0]] + split_fields(s, sep)[0] =~= seq![c]);
            assert(split_fields(s, sep).last() =~= Seq::<char>::empty());
            assert(split_fields(s, sep).last().push(c) =~= seq![c]);
            assert(split_fields(s.push(c), sep) =~~= split_fields(s, sep).update(
                split_fields(s, sep).len() - 1,
                split_fields(s, sep).last().push(c),
            ));
        }
    } else {
        let s1 = s.drop_first();
        lemma_split_fields_snoc(s1, c, sep);
        lemma_split_fields_len(s1, sep);
        assert(s.push(c).drop_first() =~= s1.push(c));
        assert(s.push(c)[0] == s[0]);
        let u = split_fields(s1, sep);
        let w = split_fields(s1.push(c), sep);
        if c == sep {
            assert(w == u.push(Seq::<char>::empty()));
            if s[0] == sep {
                assert(split_fields(s.push(c), sep) == seq![Seq::<char>::empty()] + w);
                assert(seq![Seq::<char>::empty()] + u.push(Seq::<char>::empty()) =~~= (seq![
                    Seq::<char>::empty(),
                ] + u).push(Seq::<char>::empty()));
            } else {
                assert(w[0] == u[0]);
                assert(w.drop_first() =~= u.drop_first().push(Seq::<char>::empty()));
                assert(split_fields(s.push(c), sep) == seq![seq![s[0]] + u[0]] + w.drop_first());
                assert(seq![seq![s[0]] + u[0]] + u.drop_first().push(Seq::<char>::empty()) =~~= (
                seq![seq![s[0]] + u[0]] + u.drop_first()).push(Seq::<char>::empty()));
            }
        } else {
            assert(w == u.update(u.len() - 1, u.last().push(c)));
            if s[0] == sep {
                assert(split_fields(s.push(c), sep) == seq![Seq::<char>::empty()] + w);
                let v = seq![Seq::<char>::empty()] + u;
                assert(v.last() == u.last());
                assert(seq![Seq::<char>::empty()] + u.update(u.len() - 1, u.last().push(c)) =~~= v
                    .update(v.len() - 1, v.last().push(c)));
            } else {
                let v = seq![seq![s[0]] + u[0]] + u.drop_first();
                assert(split_fields(s, sep) == v);
                if u.len() == 1 {
                    assert(w[0] == u[0].push(c));
                    assert(w.drop_first() =~= u.drop_first());
                    assert(split_fields(s.push(c), sep) == seq![seq![s[0]] + u[0].push(c)] + w
                        .drop_first());
                    assert(v.last() == seq![s[0]] + u[0]);
                    assert(seq![s[0]] + u[0].push(c) =~= (seq![s[0]] + u[0]).push(c));
                    assert(seq![seq![s[0]] + u[0].push(c)] + u.drop_first() =~~= v.update(
                        v.len() - 1,
                        v.last().push(c),
                    ));
                } else {
                    assert(w[0] == u[0]);
                    assert(w.drop_first() =~= u.drop_first().update(
                        u.len() - 2,
                        u.last().push(c),
                    ));
                    assert(split_fields(s.push(c), sep) == seq![seq![s[0]] + u[0]] + w
                        .drop_first());
                    assert(v.last() == u.last());
                    assert(seq![seq![s[0]] + u[0]] + u.drop_first().update(
                        u.len() - 2,
                        u.last().push(c),
                    ) =~~= v.update(v.len() - 1, v.last().push(c)));
                }
            }
        }
    }
}

/// The last field of a split never holds the separator.
pub proof fn lemma_split_fields_last_no_sep(s: Seq<char>, sep: char)
    ensures
        forall|j: int|
            0 <= j < split_fields(s, sep).last().len() ==> split_fields(s, sep).last()[j] != sep,
    decreases s.len(),
{
    lemma_split_fields_len(s, sep);
    if s.len() > 0 {
        let s1 = s.drop_first();
        lemma_split_fields_last_no_sep(s1, sep);
        lemma_split_fields_len(s1, sep);
        let u = split_fields(s1, sep);
        if s[0] == sep {
            assert(split_fields(s, sep).last() == u.last());
        } else {
            if u.len() == 1 {
                assert(split_fields(s, sep).last() == seq![s[0]] + u[0]);
                assert(u[0] == u.last());
                assert(forall|j: int|
                    0 <= j < (seq![s[0]] + u[0]).len() ==> (seq![s[0]] + u[0])[j] != sep);
            } else {
                assert(split_fields(s, sep).last() == u.drop_first().last());
                assert(u.drop_first().last() == u.last());
            }
        }
    }
}

/// A string free of the separator is one single field.
pub proof fn lemma_split_fields_whole(s: Seq<char>, sep: char)
    requires
        forall|j: int| 0 <= j < s.len() ==> s[j] != sep,
    ensures
        split_fields(s, sep) == seq![s],
{
    lemma_split_fields_prefix(s, sep, s.len() as int);
    assert(s.skip(s.len() as int) =~= Seq::<char>::empty());
    assert(s.take(s.len() as int) + split_fields(Seq::<char>::empty(), sep)[0] =~= s);
    assert(split_fields(s, sep) =~~= seq![s]);
}

/// Drops one carriage return at the end of a line, as line-based
/// readers of CRLF streams do.
pub open spec fn strip_cr(l: Seq<char>) -> Seq<char> {
    if l.len() > 0 && l.last() == '\r' {
        l.drop_last()
    } else {
        l
    }
}

pub fn strip_cr_str(s: &str) -> (r: String)
    ensures
        r@ == strip_cr(s@),
{
    let n = s.unicode_len();
    if n > 0 && s.get_char(n - 1) == '\r' {
        let r = s.substring_char(0, n - 1).to_owned();
        assert(r@ =~= strip_cr(s@));
        r
    } else {
        s.to_owned()
    }
}

/// A string without its trailing whitespace.
pub open spec fn rstrip(s: Seq<char>) -> Seq<char>
    decreases s.len(),
{
    if s.len() > 0 && is_space_char(s.last()) {
        rstrip(s.drop_last())
    } else {
        s
    }
}

/// A string without its leading whitespace.
pub open spec fn lstrip(s: Seq<char>) -> Seq<char>
    decreases s.len(),
{
    if s.len() > 0 && is_space_char(s[0]) {
        lstrip(s.drop_first())
    } else {
        s
    }
}

/// A string without its leading and trailing whitespace.
pub open spec fn trim_spec(s: Seq<char>) -> Seq<char> {
    lstrip(rstrip(s))
}

pub fn trim(s: &str) -> (r: String)
    ensures
        r@ == trim_spec(s@),
{
    let n = s.unicode_len();
    assert(s@.take(n as int) =~= s@);
    let mut e: usize = n;
    while e > 0 && is_space(s.get_char(e - 1))
        invariant
            0 <= e <= n,
            n == s@.len(),
            rstrip(s@) == rstrip(s@.take(e as int)),
        decreases e,
    {
        assert(s@.take(e as int).drop_last() =~= s@.take(e - 1));
        e = e - 1;
    }
    assert(rstrip(s@) == s@.take(e as int));
    let mut b: usize = 0;
    while b < e && is_space(s.get_char(b))
        invariant
            0 <= b <= e <= n,
            n == s@.len(),
            rstrip(s@) == s@.take(e as int),
            trim_spec(s@) == lstrip(s@.subrange(b as int, e as int)),
        decreases e - b,
    {
        assert(s@.subrange(b as int, e as int)[0] == s@[b as int]);
        assert(s@.subrange(b as int, e as int).drop_first() =~= s@.subrange(b + 1, e as int));
        b = b + 1;
    }
    assert(trim_spec(s@) == s@.subrange(b as int, e as int));
    s.substring_char(b, e).to_owned()
}

fn is_space(c: char) -> (r: bool)
    ensures
        r == is_space_char(c),
{
    c == ' ' || c == '\t' || c == '\r' || c == '\n'
}

/// The maximal run of non-whitespace characters at the end of a string.
pub open spec fn trailing_run(s: Seq<char>) -> Seq<char>
    decreases s.len(),
{
    if s.len() == 0 {
        Seq::<char>::empty()
    } else if is_space_char(s.last()) {
        Seq::<char>::empty()
    } else {
        trailing_run(s.drop_last()).push(s.last())
    }
}

/// The last whitespace-separated token of a string; empty when the
/// string holds none.
pub open spec fn last_token(s: Seq<char>) -> Seq<char> {
    trailing_run(rstrip(s))
}

pub fn last_token_str(s: &str) -> (r: String)
    ensures
        r@ == last_token(s@),
{
    let n = s.unicode_len();
    assert(s@.take(n as int) =~= s@);
    let mut e: usize = n;
    while e > 0 && is_space(s.get_char(e - 1))
        invariant
            0 <= e <= n,
            n == s@.len(),
            rstrip(s@) == rstrip(s@.take(e as int)),
        decreases e,
    {
        assert(s@.take(e as int).drop_last() =~= s@.take(e - 1));
        e = e - 1;
    }
    assert(rstrip(s@) == s@.take(e as int));
    let mut b: usize = e;
    while b > 0 && !is_space(s.get_char(b - 1))
        invariant
            0 <= b <= e <= n,
            n == s@.len(),
            rstrip(s@) == s@.take(e as int),
            trailing_run(s@.take(e as int)) == trailing_run(s@.take(b as int)) + s@.subrange(
                b as int,
                e as int,
            ),
        decreases b,
    {
        assert(s@.take(b as int).drop_last() =~= s@.take(b - 1));
        assert(trailing_run(s@.take(b as int)) =~= trailing_run(s@.take(b - 1)).push(
            s@[b - 1],
        ));
        assert(trailing_run(s@.take(b - 1)) + s@.subrange(b - 1, e as int) =~= trailing_run(
            s@.take(b as int),
        ) + s@.subrange(b as int, e as int));
        b = b - 1;
    }
    assert(trailing_run(s@.take(b as int)) =~= Seq::<char>::empty());
    assert(last_token(s@) == s@.subrange(b as int, e as int));
    s.substring_char(b, e).to_owned()
}

/// Whether `p` occurs in `s` starting at position `i`.
pub open spec fn contains_at(s: Seq<char>, p: Seq<char>, i: int) -> bool {
    0 <= i && i + p.len() <= s.len() && s.subrange(i, i + p.len()) == p
}

/// Whether `p` occurs anywhere in `s`.
pub open spec fn contains_seq(s: Seq<char>, p: Seq<char>) -> bool {
    exists|i: int| contains_at(s, p, i)
}

/// Naive substring search.
pub fn contains_chars(s: &str, p: &Vec<char>) -> (r: bool)
    ensures
        r == contains_seq(s@, p@),
{
    let n = s.unicode_len();
    let m = p.len();
    if m == 0 {
        assert(s@.subrange(0, 0) =~= p@);
        assert(contains_at(s@, p@, 0));
        return true;
    }
    if m > n {
        assert(forall|i: int| !contains_at(s@, p@, i));
        return false;
    }
    let mut i: usize = 0;
    while i <= n - m
        invariant
            0 < m <= n,
            n == s@.len(),
            m == p@.len(),
            0 <= i <= n - m + 1,
            forall|k: int| 0 <= k < i ==> !contains_at(s@, p@, k),
        decreases n - i,
    {
        let mut j: usize = 0;
        while j < m && s.get_char(i + j) == p[j]
            invariant
                0 < m <= n,
                n == s@.len(),
                m == p@.len(),
                0 <= i <= n - m,
                0 <= j <= m,
                forall|k: int| 0 <= k < j ==> s@[i + k] == p@[k],
            decreases m - j,
        {
            j = j + 1;
        }
        if j == m {
            assert(s@.subrange(i as int, i + m) =~= p@);
            assert(contains_at(s@, p@, i as int));
            return true;
        }
        assert(!contains_at(s@, p@, i as int)) by {
            assert(s@[i + j] != p@[j as int]);
            if contains_at(s@, p@, i as int) {
                assert(s@.subrange(i as int, i + m)[j as int] == s@[i + j]);
            }
        }
        i = i + 1;
    }
    assert(!contains_seq(s@, p@)) by {
        if contains_seq(s@, p@) {
            let k = choose|k: int| contains_at(s@, p@, k);
            assert(!contains_at(s@, p@, k));
        }
    }
    return false;
}

} // verus!
