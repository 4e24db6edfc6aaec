//! Character-level text handling for action lines: splitting into fields,
//! trimming, ASCII upper-casing, UTF-8 lengths and decimal integers.
use vstd::prelude::*;
use vstd::std_specs::iter::IteratorSpec;

verus! {

broadcast use vstd::string::group_string_axioms;

/// The characters of `s`, in order.
pub fn str_chars(s: &str) -> (v: Vec<char>)
    ensures
        v@ == s@,
{
    let mut v: Vec<char> = Vec::new();
    for c in iter: s.chars()
        invariant
            iter.seq() == s@,
            v@ == s@.take(iter.index() as int),
    {
        v.push(c);
    }
    v
}

/// `c` has the Unicode property White_Space (what `char::is_whitespace`
/// tests).
pub open spec fn is_whitespace(c: char) -> bool {
    let u = c as u32;
    ||| 0x09 <= u <= 0x0d
    ||| u == 0x20
    ||| u == 0x85
    ||| u == 0xa0
    ||| u == 0x1680
    ||| 0x2000 <= u <= 0x200a
    ||| u == 0x2028
    ||| u == 0x2029
    ||| u == 0x202f
    ||| u == 0x205f
    ||| u == 0x3000
}

/// Decides [`is_whitespace`].
pub fn char_is_whitespace(c: char) -> (b: bool)
    ensures
        b == is_whitespace(c),
{
    let u = c as u32;
    (0x09 <= u && u <= 0x0d) || u == 0x20 || u == 0x85 || u == 0xa0 || u == 0x1680 || (0x2000 <= u
        && u <= 0x200a) || u == 0x2028 || u == 0x2029 || u == 0x202f || u == 0x205f || u == 0x3000
}

/// `s` without its leading whitespace.
pub open spec fn trim_start(s: Seq<char>) -> Seq<char>
    decreases s.len(),
{
    if s.len() > 0 && is_whitespace(s[0]) {
        trim_start(s.drop_first())
    } else {
        s
    }
}

/// `s` without its trailing whitespace.
pub open spec fn trim_end(s: Seq<char>) -> Seq<char>
    decreases s.len(),
{
    if s.len() > 0 && is_whitespace(s.last()) {
        trim_end(s.drop_last())
    } else {
        s
    }
}

/// `s` without leading and trailing whitespace (what `str::trim` returns).
pub open spec fn trim(s: Seq<char>) -> Seq<char> {
    trim_end(trim_start(s))
}

proof fn lemma_trim_start_shape(s: Seq<char>)
    ensures
        trim_start(s).len() > 0 ==> !is_whitespace(trim_start(s)[0]),
        trim_start(s).len() <= s.len(),
    decreases s.len(),
{
    if s.len() > 0 && is_whitespace(s[0]) {
        lemma_trim_start_shape(s.drop_first());
    }
}

proof fn lemma_trim_end_shape(s: Seq<char>)
    ensures
        trim_end(s).len() > 0 ==> !is_whitespace(trim_end(s).last()),
        trim_end(s).len() <= s.len(),
        trim_end(s) == s.take(trim_end(s).len() as int),
    decreases s.len(),
{
    if s.len() > 0 && is_whitespace(s.last()) {
        lemma_trim_end_shape(s.drop_last());
        let t = trim_end(s.drop_last());
        assert(s.drop_last().take(t.len() as int) =~= s.take(t.len() as int));
    } else {
        assert(s.take(s.len() as int) =~= s);
    }
}

/// Trimming a trimmed text changes nothing.
pub proof fn lemma_trim_idempotent(s: Seq<char>)
    ensures
        trim(trim(s)) == trim(s),
{
    let u = trim_start(s);
    let t = trim_end(u);
    lemma_trim_start_shape(s);
    lemma_trim_end_shape(u);
    lemma_trim_end_shape(t);
    if t.len() > 0 {
        assert(t[0] == u[0]);
    }
    assert(trim_start(t) == t);
    assert(trim_end(t) == t) by {
        if t.len() > 0 {
            assert(!is_whitespace(t.last()));
        }
    }
}

proof fn lemma_trim_start_skip(s: Seq<char>, i: int)
    requires
        0 <= i <= s.len(),
        forall|k: int| 0 <= k < i ==> is_whitespace(#[trigger] s[k]),
        i < s.len() ==> !is_whitespace(s[i]),
    ensures
        trim_start(s) == s.skip(i),
    decreases i,
{
    if i == 0 {
        assert(s.skip(0) =~= s);
    } else {
        assert(is_whitespace(s[0]));
        let t = s.drop_first();
        assert forall|k: int| 0 <= k < i - 1 implies is_whitespace(#[trigger] t[k]) by {
            assert(t[k] == s[k + 1]);
        }
        lemma_trim_start_skip(t, i - 1);
        assert(t.skip(i - 1) =~= s.skip(i));
    }
}

proof fn lemma_trim_end_take(s: Seq<char>, j: int)
    requires
        0 <= j <= s.len(),
        forall|k: int| j <= k < s.len() ==> is_whitespace(#[trigger] s[k]),
        j > 0 ==> !is_whitespace(s[j - 1]),
    ensures
        trim_end(s) == s.take(j),
    decreases s.len() - j,
{
    if j == s.len() {
        assert(s.take(j) =~= s);
    } else {
        assert(is_whitespace(s.last()));
        let t = s.drop_last();
        assert forall|k: int| j <= k < t.len() implies is_whitespace(#[trigger] t[k]) by {
            assert(t[k] == s[k]);
        }
        lemma_trim_end_take(t, j);
        assert(t.take(j) =~= s.take(j));
    }
}

/// The characters of `s` without leading and trailing whitespace.
pub fn trim_chars(s: &Vec<char>) -> (t: Vec<char>)
    ensures
        t@ == trim(s@),
{
    let n = s.len();
    let mut i: usize = 0;
    while i < n && char_is_whitespace(s[i])
        invariant
            0 <= i <= n,
            n == s@.len(),
            forall|k: int| 0 <= k < i ==> is_whitespace(#[trigger] s@[k]),
        decreases n - i,
    {
        i = i + 1;
    }
    proof {
        lemma_trim_start_skip(s@, i as int);
    }
    let mut j: usize = n;
    while j > i && char_is_whitespace(s[j - 1])
        invariant
            i <= j <= n,
            n == s@.len(),
            forall|k: int| j <= k < n ==> is_whitespace(#[trigger] s@[k]),
        decreases j,
    {
        j = j - 1;
    }
    let ghost rest = s@.skip(i as int);
    proof {
        assert forall|k: int| j - i <= k < rest.len() implies is_whitespace(#[trigger] rest[k]) by {
            assert(rest[k] == s@[k + i]);
        }
        if j > i {
            assert(rest[j - i - 1] == s@[j - 1]);
        }
        lemma_trim_end_take(rest, j - i);
    }
    let mut t: Vec<char> = Vec::new();
    let mut k: usize = i;
    while k < j
        invariant
            i <= k <= j <= n,
            n == s@.len(),
            t@ == s@.subrange(i as int, k as int),
        decreases j - k,
    {
        t.push(s[k]);
        k = k + 1;
        assert(t@ =~= s@.subrange(i as int, k as int));
    }
    assert(rest.take(j - i) =~= s@.subrange(i as int, j as int));
    t
}

/// The number of bytes that the UTF-8 encoding of `c` takes.
pub open spec fn char_utf8_len(c: char) -> nat {
    let u = c as u32;
    if u < 0x80 {
        1
    } else if u < 0x800 {
        2
    } else if u < 0x10000 {
        3
    } else {
        4
    }
}

/// The number of bytes that the UTF-8 encoding of `s` takes (what `str::len`
/// returns).
pub open spec fn utf8_len(s: Seq<char>) -> nat
    decreases s.len(),
{
    if s.len() == 0 {
        0
    } else {
        utf8_len(s.drop_last()) + char_utf8_len(s.last())
    }
}

/// A character takes at most four bytes.
pub proof fn lemma_utf8_len_at_most_4(s: Seq<char>)
    ensures
        utf8_len(s) <= 4 * s.len(),
    decreases s.len(),
{
    if s.len() > 0 {
        lemma_utf8_len_at_most_4(s.drop_last());
    }
}

proof fn lemma_utf8_len_prefix(s: Seq<char>, i: int)
    requires
        0 <= i <= s.len(),
    ensures
        utf8_len(s.take(i)) <= utf8_len(s),
    decreases s.len(),
{
    if i < s.len() {
        lemma_utf8_len_prefix(s.drop_last(), i);
        assert(s.drop_last().take(i) =~= s.take(i));
    } else {
        assert(s.take(i) =~= s);
    }
}

/// Decides whether the UTF-8 encoding of `s` takes at most `limit` bytes.
pub fn utf8_len_at_most(s: &[char], limit: u64) -> (b: bool)
    requires
        limit < 0x1000_0000_0000_0000,
    ensures
        b == (utf8_len(s@) <= limit),
{
    let mut n: u64 = 0;
    let mut i: usize = 0;
    while i < s.len()
        invariant
            0 <= i <= s@.len(),
            limit < 0x1000_0000_0000_0000,
            n <= limit,
            n == utf8_len(s@.take(i as int)),
        decreases s@.len() - i,
    {
        let u = s[i] as u32;
        let w: u64 = if u < 0x80 {
            1
        } else if u < 0x800 {
            2
        } else if u < 0x10000 {
            3
        } else {
            4
        };
        assert(s@.take(i + 1).drop_last() =~= s@.take(i as int));
        n = n + w;
        i = i + 1;
        if n > limit {
            proof {
                lemma_utf8_len_prefix(s@, i as int);
            }
            return false;
        }
    }
    assert(s@.take(s@.len() as int) =~= s@);
    true
}

/// `c` with a lower-case ASCII letter made upper case (what
/// `char::make_ascii_uppercase` does).
pub open spec fn ascii_upper(c: char) -> char {
    if 'a' <= c && c <= 'z' {
        ((c as u32) - 32) as char
    } else {
        c
    }
}

/// `s` with every lower-case ASCII letter made upper case (what
/// `str::make_ascii_uppercase` does).
pub open spec fn ascii_upper_all(s: Seq<char>) -> Seq<char> {
    s.map_values(|c: char| ascii_upper(c))
}

/// `c` with an upper-case ASCII letter made lower case (what
/// `char::make_ascii_lowercase` does).
pub open spec fn ascii_lower(c: char) -> char {
    if 'A' <= c && c <= 'Z' {
        ((c as u32) + 32) as char
    } else {
        c
    }
}

/// `s` with every upper-case ASCII letter made lower case.
pub open spec fn ascii_lower_all(s: Seq<char>) -> Seq<char> {
    s.map_values(|c: char| ascii_lower(c))
}

/// Upper-casing moves each of the 26 lower-case ASCII letters down by 32 to
/// its capital and leaves every other character as it is; so a word and its
/// lower-case spelling upper-case alike.
pub proof fn lemma_ascii_upper_letters(c: char)
    ensures
        'a' <= c <= 'z' ==> 'A' <= ascii_upper(c) <= 'Z' && (ascii_upper(c) as u32) + 32
            == c as u32,
        !('a' <= c <= 'z') ==> ascii_upper(c) == c,
        ascii_upper(ascii_lower(c)) == ascii_upper(c),
{
}

/// A word spelt in lower case upper-cases to what the word itself does.
pub proof fn lemma_upper_of_lower(s: Seq<char>)
    ensures
        ascii_upper_all(ascii_lower_all(s)) == ascii_upper_all(s),
{
    assert forall|i: int| 0 <= i < s.len() implies #[trigger] ascii_upper_all(
        ascii_lower_all(s),
    )[i] == ascii_upper_all(s)[i] by {
        lemma_ascii_upper_letters(s[i]);
    }
    assert(ascii_upper_all(ascii_lower_all(s)) =~= ascii_upper_all(s));
}

/// Computes [`ascii_upper_all`] of `s`.
pub fn chars_ascii_upper(s: &[char]) -> (t: Vec<char>)
    ensures
        t@ == ascii_upper_all(s@),
{
    let mut t: Vec<char> = Vec::new();
    let mut i: usize = 0;
    while i < s.len()
        invariant
            0 <= i <= s@.len(),
            t@ == ascii_upper_all(s@.take(i as int)),
        decreases s@.len() - i,
    {
        let c = s[i];
        let u: char = if 'a' <= c && c <= 'z' {
            ((c as u8) - 32) as char
        } else {
            c
        };
        t.push(u);
        i = i + 1;
        assert(t@ =~= ascii_upper_all(s@.take(i as int)));
    }
    assert(s@.take(s@.len() as int) =~= s@);
    t
}

/// `t` and the characters of `w` are the same.
pub fn chars_eq_str(t: &[char], w: &str) -> (b: bool)
    ensures
        b == (t@ == w@),
{
    let wc = str_chars(w);
    if t.len() != wc.len() {
        return false;
    }
    let mut i: usize = 0;
    while i < t.len()
        invariant
            0 <= i <= t@.len(),
            t@.len() == wc@.len(),
            wc@ == w@,
            forall|k: int| 0 <= k < i ==> t@[k] == wc@[k],
        decreases t@.len() - i,
    {
        if t[i] != wc[i] {
            return false;
        }
        i = i + 1;
    }
    assert(t@ =~= wc@);
    true
}

/// `p` is a prefix of `t`.
pub open spec fn has_prefix(t: Seq<char>, p: Seq<char>) -> bool {
    p.len() <= t.len() && t.take(p.len() as int) == p
}

/// Decides whether the characters of `p` begin `t`; returns their number.
pub fn chars_starts_with(t: &[char], p: &str) -> (r: (bool, usize))
    ensures
        r.0 == has_prefix(t@, p@),
        r.1 == p@.len(),
{
    let pc = str_chars(p);
    let n = pc.len();
    if n > t.len() {
        return (false, n);
    }
    let mut i: usize = 0;
    while i < n
        invariant
            0 <= i <= n <= t@.len(),
            n == pc@.len(),
            pc@ == p@,
            forall|k: int| 0 <= k < i ==> t@[k] == pc@[k],
        decreases n - i,
    {
        if t[i] != pc[i] {
            return (false, n);
        }
        i = i + 1;
    }
    assert(t@.take(n as int) =~= pc@);
    (true, n)
}

/// The fields of `s` between the separators `sep` (what `str::split` yields
/// for a one-character pattern): `s` without separators gives one field, and
/// every separator starts a new one.
pub open spec fn split_fields(s: Seq<char>, sep: char) -> Seq<Seq<char>>
    decreases s.len(),
{
    if s.len() == 0 {
        seq![Seq::<char>::empty()]
    } else {
        let f = split_fields(s.drop_last(), sep);
        if s.last() == sep {
            f.push(Seq::<char>::empty())
        } else {
            f.update(f.len() - 1, f.last().push(s.last()))
        }
    }
}

/// There is always at least one field.
pub proof fn lemma_split_fields_len(s: Seq<char>, sep: char)
    ensures
        1 <= split_fields(s, sep).len() <= s.len() + 1,
    decreases s.len(),
{
    if s.len() > 0 {
        lemma_split_fields_len(s.drop_last(), sep);
    }
}

/// No field is longer than the text it comes from.
pub proof fn lemma_split_fields_short(s: Seq<char>, sep: char)
    ensures
        forall|i: int|
            0 <= i < split_fields(s, sep).len() ==> (#[trigger] split_fields(s, sep)[i]).len()
                <= s.len(),
    decreases s.len(),
{
    if s.len() > 0 {
        lemma_split_fields_short(s.drop_last(), sep);
        lemma_split_fields_len(s.drop_last(), sep);
        let f = split_fields(s.drop_last(), sep);
        assert(f[f.len() - 1].len() <= s.len() - 1);
    }
}

/// The fields of `s` between the separators `sep`.
pub fn split_chars(s: &[char], sep: char) -> (f: Vec<Vec<char>>)
    ensures
        f.deep_view() == split_fields(s@, sep),
{
    let mut done: Vec<Vec<char>> = Vec::new();
    let mut cur: Vec<char> = Vec::new();
    let ghost mut fields: Seq<Seq<char>> = Seq::empty();
    let mut i: usize = 0;
    assert(s@.take(0) =~= Seq::<char>::empty());
    assert(split_fields(s@.take(0), sep) =~= fields.push(cur@));
    while i < s.len()
        invariant
            0 <= i <= s@.len(),
            split_fields(s@.take(i as int), sep) == fields.push(cur@),
            done@.len() == fields.len(),
            forall|k: int| 0 <= k < fields.len() ==> (#[trigger] done@[k])@ == fields[k],
        decreases s@.len() - i,
    {
        let c = s[i];
        let ghost before = s@.take(i as int);
        assert(s@.take(i + 1).drop_last() =~= before);
        assert(s@.take(i + 1).last() == c);
        if c == sep {
            let ghost old_cur = cur@;
            done.push(cur);
            cur = Vec::new();
            proof {
                fields = fields.push(old_cur);
            }
            assert(split_fields(s@.take(i + 1), sep) =~= fields.push(cur@));
        } else {
            let ghost old_cur = cur@;
            cur.push(c);
            assert(split_fields(s@.take(i + 1), sep) =~= fields.push(old_cur).update(
                fields.len() as int,
                old_cur.push(c),
            ));
            assert(fields.push(old_cur).update(fields.len() as int, old_cur.push(c)) =~= fields.push(
                cur@,
            ));
        }
        i = i + 1;
    }
    assert(s@.take(s@.len() as int) =~= s@);
    let ghost last = cur@;
    done.push(cur);
    assert(done.deep_view() =~= fields.push(last)) by {
        assert forall|k: int| 0 <= k < done@.len() implies #[trigger] done.deep_view()[k]
            == fields.push(last)[k] by {
            assert(done.deep_view()[k] == done@[k].deep_view());
        }
    }
    done
}

/// The fields of `lines` joined by `sep` (the inverse of [`split_fields`]).
pub open spec fn join_fields(lines: Seq<Seq<char>>, sep: char) -> Seq<char>
    decreases lines.len(),
{
    if lines.len() <= 1 {
        if lines.len() == 1 {
            lines[0]
        } else {
            Seq::<char>::empty()
        }
    } else {
        join_fields(lines.drop_last(), sep).push(sep) + lines.last()
    }
}

/// Joining the fields of a text by their separator gives the text back.
pub proof fn lemma_split_join(s: Seq<char>, sep: char)
    ensures
        join_fields(split_fields(s, sep), sep) == s,
    decreases s.len(),
{
    if s.len() > 0 {
        let p = s.drop_last();
        let c = s.last();
        let f = split_fields(p, sep);
        lemma_split_join(p, sep);
        lemma_split_fields_len(p, sep);
        if c == sep {
            let g = f.push(Seq::<char>::empty());
            assert(g.drop_last() =~= f);
            assert(join_fields(g, sep) =~= s);
        } else {
            let g = f.update(f.len() - 1, f.last().push(c));
            if f.len() == 1 {
                assert(join_fields(f, sep) == f[0]);
                assert(join_fields(g, sep) =~= s);
            } else {
                assert(g.drop_last() =~= f.drop_last());
                let head = join_fields(f.drop_last(), sep).push(sep);
                assert(join_fields(f, sep) == head + f.last());
                assert(join_fields(g, sep) == head + g.last());
                assert(g.last() == f.last().push(c));
                assert(head + f.last().push(c) =~= (head + f.last()).push(c));
                assert(s =~= p.push(c));
            }
        }
    } else {
        assert(split_fields(s, sep) =~= seq![Seq::<char>::empty()]);
        assert(s =~= Seq::<char>::empty());
    }
}

/// `c` is an ASCII decimal digit.
pub open spec fn is_digit(c: char) -> bool {
    '0' <= c && c <= '9'
}

/// The value of the decimal digits `d` (most significant first).
pub open spec fn digits_value(d: Seq<char>) -> int
    decreases d.len(),
{
    if d.len() == 0 {
        0
    } else {
        10 * digits_value(d.drop_last()) + ((d.last() as u32) - ('0' as u32))
    }
}

/// Every character of `d` is a decimal digit.
pub open spec fn all_digits(d: Seq<char>) -> bool {
    forall|i: int| 0 <= i < d.len() ==> is_digit(#[trigger] d[i])
}

/// The digits of `s` after an optional sign.
pub open spec fn unsigned_part(s: Seq<char>) -> Seq<char> {
    if s.len() > 0 && (s[0] == '-' || s[0] == '+') {
        s.drop_first()
    } else {
        s
    }
}

/// What `str::parse::<i32>` gives for `s`: an optional `+` or `-` and at
/// least one decimal digit, whose value lies in the range of `i32`; `None`
/// for anything else.
pub open spec fn parse_i32(s: Seq<char>) -> Option<i32> {
    let d = unsigned_part(s);
    if s.len() == 0 || d.len() == 0 || !all_digits(d) {
        None
    } else {
        let v = if s[0] == '-' {
            -digits_value(d)
        } else {
            digits_value(d)
        };
        if i32::MIN <= v <= i32::MAX {
            Some(v as i32)
        } else {
            None
        }
    }
}

proof fn lemma_digits_value_nonneg(d: Seq<char>)
    requires
        all_digits(d),
    ensures
        digits_value(d) >= 0,
    decreases d.len(),
{
    if d.len() > 0 {
        assert(all_digits(d.drop_last())) by {
            assert forall|i: int| 0 <= i < d.drop_last().len() implies is_digit(
                #[trigger] d.drop_last()[i],
            ) by {
                assert(d.drop_last()[i] == d[i]);
            }
        }
        lemma_digits_value_nonneg(d.drop_last());
        assert(is_digit(d[d.len() - 1]));
    }
}

proof fn lemma_digits_value_prefix(d: Seq<char>, k: int)
    requires
        all_digits(d),
        0 <= k <= d.len(),
    ensures
        digits_value(d.take(k)) <= digits_value(d),
    decreases d.len(),
{
    if k < d.len() {
        let p = d.drop_last();
        assert(all_digits(p)) by {
            assert forall|i: int| 0 <= i < p.len() implies is_digit(#[trigger] p[i]) by {
                assert(p[i] == d[i]);
            }
        }
        lemma_digits_value_prefix(p, k);
        assert(p.take(k) =~= d.take(k));
        lemma_digits_value_nonneg(p);
        assert(is_digit(d[d.len() - 1]));
    } else {
        assert(d.take(k) =~= d);
    }
}

/// Every decimal numeral (one or more of the characters `'0'` to `'9'`)
/// whose value fits in `i32` parses to that value, and so does it with a
/// leading `+`; with a leading `-` it parses to the negated value.
pub proof fn lemma_parse_decimal_numeral(d: Seq<char>)
    requires
        d.len() > 0,
        forall|i: int| 0 <= i < d.len() ==> '0' <= #[trigger] d[i] && d[i] <= '9',
        digits_value(d) <= i32::MAX,
    ensures
        parse_i32(d) == Some(digits_value(d) as i32),
        parse_i32(seq!['+'] + d) == Some(digits_value(d) as i32),
        parse_i32(seq!['-'] + d) == Some((-digits_value(d)) as i32),
{
    assert(all_digits(d));
    assert(unsigned_part(d) == d);
    lemma_digits_value_nonneg(d);
    let plus = seq!['+'] + d;
    let minus = seq!['-'] + d;
    assert(plus[0] == '+');
    assert(minus[0] == '-');
    assert(unsigned_part(plus) =~= d);
    assert(unsigned_part(minus) =~= d);
}

/// A single decimal digit parses to its value.
pub proof fn lemma_parse_digit(c: char)
    requires
        '0' <= c <= '9',
    ensures
        parse_i32(seq![c]) == Some(((c as u32) - ('0' as u32)) as i32),
{
    let d = seq![c];
    assert(d.drop_last() =~= Seq::<char>::empty());
    assert(digits_value(d.drop_last()) == 0);
    assert(d.last() == c);
    assert(digits_value(d) == (c as u32) - ('0' as u32));
    lemma_parse_decimal_numeral(d);
}

/// Computes [`parse_i32`] of `s`.
pub fn parse_i32_chars(s: &[char]) -> (r: Option<i32>)
    ensures
        r == parse_i32(s@),
{
    let n = s.len();
    if n == 0 {
        return None;
    }
    let first = s[0];
    let start: usize = if first == '-' || first == '+' {
        1
    } else {
        0
    };
    let ghost d = unsigned_part(s@);
    assert(d =~= s@.skip(start as int));
    if start == n {
        return None;
    }
    let mut v: u64 = 0;
    let mut i: usize = start;
    while i < n
        invariant
            start <= i <= n,
            n == s@.len(),
            d == s@.skip(start as int),
            d == unsigned_part(s@),
            first == s@[0],
            v <= 0x8000_0000,
            all_digits(d.take(i - start)),
            v == digits_value(d.take(i - start)),
        decreases n - i,
    {
        let c = s[i];
        if !('0' <= c && c <= '9') {
            assert(!is_digit(d[i - start]));
            assert(!all_digits(d));
            return None;
        }
        let ghost prev = d.take(i - start);
        assert(d.take(i - start + 1).drop_last() =~= prev);
        assert(d.take(i - start + 1).last() == c);
        assert(digits_value(d.take(i - start + 1)) == 10 * digits_value(prev) + ((c as u32) - (
        '0' as u32)));
        v = v * 10 + ((c as u32) - ('0' as u32)) as u64;
        i = i + 1;
        assert(all_digits(d.take(i - start))) by {
            assert forall|k: int| 0 <= k < d.take(i - start).len() implies is_digit(
                #[trigger] d.take(i - start)[k],
            ) by {
                if k < i - start - 1 {
                    assert(d.take(i - start)[k] == prev[k]);
                }
            }
        }
        if v > 0x8000_0000 {
            proof {
                if all_digits(d) {
                    lemma_digits_value_prefix(d, i - start);
                }
            }
            return None;
        }
    }
    assert(d.take(n - start) =~= d);
    if first == '-' {
        Some((0 - (v as i64)) as i32)
    } else if v <= 0x7fff_ffff {
        Some(v as i32)
    } else {
        None
    }
}

} // verus!
