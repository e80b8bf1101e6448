//! Text building blocks: joining, decimal numerals and character access.

use vstd::prelude::*;

verus! {

/// An optional string by its view.
pub open spec fn option_view(o: Option<String>) -> Option<Seq<char>> {
    match o {
        Some(s) => Some(s@),
        None => None,
    }
}

/// The pieces `parts` laid end to end with `sep` between neighbours.
pub open spec fn seq_join(parts: Seq<Seq<char>>, sep: Seq<char>) -> Seq<char>
    decreases parts.len(),
{
    if parts.len() == 0 {
        Seq::empty()
    } else if parts.len() == 1 {
        parts[0]
    } else {
        seq_join(parts.drop_last(), sep) + sep + parts.last()
    }
}

/// The character views of a list of strings.
pub open spec fn string_views(strings: Seq<String>) -> Seq<Seq<char>> {
    strings.map_values(|s: String| s@)
}

/// The ASCII digit for `d` (which is below ten).
pub open spec fn digit_char(d: nat) -> char {
    if d == 0 { '0' }
    else if d == 1 { '1' }
    else if d == 2 { '2' }
    else if d == 3 { '3' }
    else if d == 4 { '4' }
    else if d == 5 { '5' }
    else if d == 6 { '6' }
    else if d == 7 { '7' }
    else if d == 8 { '8' }
    else { '9' }
}

/// The value of an ASCII digit character, or `None` for any other character.
pub open spec fn digit_value(c: char) -> Option<nat> {
    if '0' <= c && c <= '9' {
        Some((c as u32 - '0' as u32) as nat)
    } else {
        None
    }
}

/// The shortest decimal numeral of `n`, without sign or leading zeros.
pub open spec fn decimal_text(n: nat) -> Seq<char>
    decreases n,
{
    if n < 10 {
        seq![digit_char(n)]
    } else {
        decimal_text(n / 10).push(digit_char(n % 10))
    }
}

/// `n` as a numeral zero-padded to at least `width` digits.
pub open spec fn padded_decimal(n: nat, width: nat) -> Seq<char> {
    let digits = decimal_text(n);
    if digits.len() < width {
        Seq::new((width - digits.len()) as nat, |i: int| '0') + digits
    } else {
        digits
    }
}

/// Every character of `s` is an ASCII digit.
pub open spec fn all_ascii_digits(s: Seq<char>) -> bool {
    forall|i: int| 0 <= i < s.len() ==> '0' <= #[trigger] s[i] <= '9'
}

/// The value of a character taken as an ASCII digit (zero for any other character).
pub open spec fn digit_of(c: char) -> nat {
    match digit_value(c) {
        Some(d) => d,
        None => 0,
    }
}

/// The number that a string of ASCII digits denotes (leading zeros allowed).
pub open spec fn decimal_value(s: Seq<char>) -> nat
    decreases s.len(),
{
    if s.len() == 0 {
        0
    } else {
        decimal_value(s.drop_last()) * 10 + digit_of(s.last())
    }
}

/// What `s.parse::<i32>()` accepts without a sign: one or more ASCII digits whose value
/// fits in an `i32`; the value.
pub open spec fn unsigned_i32_value(s: Seq<char>) -> Option<nat> {
    if s.len() > 0 && all_ascii_digits(s) && decimal_value(s) <= i32::MAX {
        Some(decimal_value(s))
    } else {
        None
    }
}

/// A prefix of a digit string denotes no more than the whole string.
proof fn lemma_decimal_value_prefix(s: Seq<char>, k: int)
    requires
        0 <= k <= s.len(),
    ensures
        decimal_value(s.take(k)) <= decimal_value(s),
    decreases s.len(),
{
    if k < s.len() {
        assert(s.take(k) =~= s.drop_last().take(k));
        lemma_decimal_value_prefix(s.drop_last(), k);
    } else {
        assert(s.take(k) =~= s);
    }
}

/// Reads an unsigned decimal that fits in an `i32`, as `parse::<i32>` does for input that
/// starts with a digit.
pub fn parse_unsigned_i32(s: &String) -> (r: Option<u32>)
    ensures
        match r {
            Some(v) => unsigned_i32_value(s@) == Some(v as nat),
            None => unsigned_i32_value(s@) is None,
        },
{
    let chars = chars_of(s.as_str());
    if chars.len() == 0 {
        return None;
    }
    let mut value: u64 = 0;
    let mut i: usize = 0;
    while i < chars.len()
        invariant
            i <= chars@.len(),
            chars@ == s@,
            all_ascii_digits(chars@.take(i as int)),
            value == decimal_value(chars@.take(i as int)),
            value <= i32::MAX,
        decreases chars@.len() - i,
    {
        let c = chars[i];
        if !('0' <= c && c <= '9') {
            proof {
                assert(!all_ascii_digits(s@)) by {
                    assert(!('0' <= s@[i as int] <= '9'));
                }
            }
            return None;
        }
        let d: u64 = (c as u32 - '0' as u32) as u64;
        proof {
            assert(chars@.take(i + 1).drop_last() =~= chars@.take(i as int));
            assert(chars@.take(i + 1).last() == c);
        }
        value = value * 10 + d;
        i = i + 1;
        if value > 2147483647 {
            proof {
                if all_ascii_digits(s@) {
                    lemma_decimal_value_prefix(s@, i as int);
                }
            }
            return None;
        }
    }
    assert(chars@.take(i as int) =~= chars@);
    Some(value as u32)
}

/// Appends one character to a string.
/// Calls `String::push`, which its documentation describes as appending the given char to
/// the end of the string; that is all the contract claims.
#[verifier::external_body]
pub(crate) fn push_char(s: &mut String, c: char)
    ensures
        final(s)@ == old(s)@.push(c),
{
    s.push(c)
}

/// The digit character for a value below ten.
pub fn digit_to_char(d: u32) -> (c: char)
    requires
        d < 10,
    ensures
        c == digit_char(d as nat),
{
    if d == 0 { '0' }
    else if d == 1 { '1' }
    else if d == 2 { '2' }
    else if d == 3 { '3' }
    else if d == 4 { '4' }
    else if d == 5 { '5' }
    else if d == 6 { '6' }
    else if d == 7 { '7' }
    else if d == 8 { '8' }
    else { '9' }
}

/// Appends the decimal numeral of `n` to `out`.
pub fn push_decimal(out: &mut String, n: u64)
    ensures
        final(out)@ == old(out)@ + decimal_text(n as nat),
    decreases n,
{
    if n < 10 {
        push_char(out, digit_to_char(n as u32));
    } else {
        push_decimal(out, n / 10);
        push_char(out, digit_to_char((n % 10) as u32));
        proof {
            assert(decimal_text(n as nat) == decimal_text((n / 10) as nat).push(digit_char((n % 10) as nat)));
        }
    }
}

/// The decimal numeral of `n`, as `to_string` writes it.
pub fn decimal_string(n: u64) -> (s: String)
    ensures
        s@ == decimal_text(n as nat),
{
    let mut s = String::new();
    push_decimal(&mut s, n);
    s
}

/// Appends `n` zero-padded to at least `width` digits.
pub fn push_padded_decimal(out: &mut String, n: u32, width: usize)
    ensures
        final(out)@ == old(out)@ + padded_decimal(n as nat, width as nat),
{
    let digits = decimal_string(n as u64);
    let len = digits.as_str().unicode_len();
    let ghost start = out@;
    if len < width {
        let mut k: usize = len;
        while k < width
            invariant
                len <= k <= width,
                len == decimal_text(n as nat).len(),
                out@ == start + Seq::new((k - len) as nat, |i: int| '0'),
            decreases width - k,
        {
            push_char(out, '0');
            k = k + 1;
            assert(out@ =~= start + Seq::new((k - len) as nat, |i: int| '0'));
        }
    }
    out.append(digits.as_str());
    assert(out@ =~= start + padded_decimal(n as nat, width as nat));
}

/// The characters of a string slice, in order.
pub fn chars_of(s: &str) -> (v: Vec<char>)
    ensures
        v@ == s@,
{
    let mut v: Vec<char> = Vec::new();
    for c in it: s.chars()
        invariant
            v@ == it.seq().take(it.index() as int),
            it.seq() == s@,
    {
        v.push(c);
        assert(v@ =~= it.seq().take(it.index() + 1));
    }
    v
}

/// The string made of `chars[from..to]`.
pub fn string_of_range(chars: &Vec<char>, from: usize, to: usize) -> (s: String)
    requires
        from <= to <= chars@.len(),
    ensures
        s@ == chars@.subrange(from as int, to as int),
{
    let mut s = String::new();
    let mut i = from;
    while i < to
        invariant
            from <= i <= to,
            to <= chars@.len(),
            s@ == chars@.subrange(from as int, i as int),
        decreases to - i,
    {
        push_char(&mut s, chars[i]);
        i = i + 1;
        assert(s@ =~= chars@.subrange(from as int, i as int));
    }
    s
}

/// `parts` joined with `sep` between neighbours, as `Itertools::join` and `[String]::join` do.
pub fn join_strings(parts: &Vec<String>, sep: &str) -> (s: String)
    ensures
        s@ == seq_join(string_views(parts@), sep@),
{
    let mut s = String::new();
    let ghost views = string_views(parts@);
    let mut i: usize = 0;
    while i < parts.len()
        invariant
            i <= parts@.len(),
            views == string_views(parts@),
            s@ == seq_join(views.take(i as int), sep@),
        decreases parts@.len() - i,
    {
        if i != 0 {
            s.append(sep);
        }
        s.append(parts[i].as_str());
        proof {
            assert(views.take(i + 1).drop_last() =~= views.take(i as int));
            assert(views[i as int] == parts@[i as int]@);
        }
        i = i + 1;
    }
    assert(views.take(parts@.len() as int) =~= views);
    s
}

/// A join begins with its first piece.
pub proof fn seq_join_starts_with_first(parts: Seq<Seq<char>>, sep: Seq<char>)
    requires
        parts.len() > 0,
    ensures
        seq_join(parts, sep).len() >= parts[0].len(),
        seq_join(parts, sep).take(parts[0].len() as int) == parts[0],
    decreases parts.len(),
{
    if parts.len() > 1 {
        seq_join_starts_with_first(parts.drop_last(), sep);
        let prev = seq_join(parts.drop_last(), sep);
        assert((prev + sep + parts.last()).take(parts[0].len() as int) =~= prev.take(parts[0].len() as int));
    } else {
        assert(parts[0].take(parts[0].len() as int) =~= parts[0]);
    }
}

/// `a` comes no later than `b` in the order of `String`: byte-wise, which for UTF-8 is the
/// lexicographic order of the code points, compared from position `k` on.
pub open spec fn text_le_from(a: Seq<char>, b: Seq<char>, k: int) -> bool
    decreases a.len() - k,
{
    if k >= a.len() {
        true
    } else if k >= b.len() {
        false
    } else if a[k] < b[k] {
        true
    } else if a[k] > b[k] {
        false
    } else {
        text_le_from(a, b, k + 1)
    }
}

/// `a` comes no later than `b` in the order of `String`.
pub open spec fn text_le(a: Seq<char>, b: Seq<char>) -> bool {
    text_le_from(a, b, 0)
}

/// Whether `a` comes no later than `b` in the order of `String`.
pub fn text_less_or_equal(a: &String, b: &String) -> (r: bool)
    ensures
        r == text_le(a@, b@),
{
    let x = chars_of(a.as_str());
    let y = chars_of(b.as_str());
    let mut k: usize = 0;
    while k < x.len()
        invariant
            k <= x@.len(),
            x@ == a@,
            y@ == b@,
            text_le_from(a@, b@, 0) == text_le_from(a@, b@, k as int),
        decreases x@.len() - k,
    {
        if k >= y.len() {
            return false;
        }
        let cx = x[k];
        let cy = y[k];
        if cx < cy {
            return true;
        }
        if cx > cy {
            return false;
        }
        k = k + 1;
    }
    true
}

pub proof fn lemma_text_le_total(a: Seq<char>, b: Seq<char>, k: int)
    requires
        0 <= k,
    ensures
        text_le_from(a, b, k) || text_le_from(b, a, k),
    decreases a.len() - k,
{
    if k < a.len() && k < b.len() && a[k] == b[k] {
        lemma_text_le_total(a, b, k + 1);
    }
}

pub proof fn lemma_text_le_transitive(a: Seq<char>, b: Seq<char>, c: Seq<char>, k: int)
    requires
        0 <= k,
        text_le_from(a, b, k),
        text_le_from(b, c, k),
    ensures
        text_le_from(a, c, k),
    decreases a.len() - k,
{
    if k < a.len() && k < b.len() && k < c.len() && a[k] == b[k] && b[k] == c[k] {
        lemma_text_le_transitive(a, b, c, k + 1);
    }
}

/// Writing a number in decimal and reading it back gives the number: the numerals that
/// `decimal_string` writes are what `parse_unsigned_i32` reads, up to `i32::MAX`.
pub proof fn decimal_text_reads_back(n: nat)
    requires
        n <= i32::MAX,
    ensures
        unsigned_i32_value(decimal_text(n)) == Some(n),
{
    lemma_decimal_text_value(n);
}

proof fn lemma_decimal_text_value(n: nat)
    ensures
        decimal_text(n).len() > 0,
        all_ascii_digits(decimal_text(n)),
        decimal_value(decimal_text(n)) == n,
    decreases n,
{
    if n < 10 {
        let t = decimal_text(n);
        assert(t.drop_last() =~= Seq::<char>::empty());
        assert(digit_of(digit_char(n)) == n);
        assert(decimal_value(t) == decimal_value(t.drop_last()) * 10 + digit_of(t.last()));
        assert(decimal_value(Seq::<char>::empty()) == 0);
    } else {
        lemma_decimal_text_value(n / 10);
        let prev = decimal_text(n / 10);
        let d = (n % 10) as nat;
        assert(decimal_text(n) == prev.push(digit_char(d)));
        assert(prev.push(digit_char(d)).drop_last() =~= prev);
        assert(digit_of(digit_char(d)) == d);
        assert(decimal_value(decimal_text(n)) == decimal_value(prev) * 10 + d);
        assert((n / 10) * 10 + d == n);
        assert forall|i: int| 0 <= i < decimal_text(n).len() implies '0' <= #[trigger] decimal_text(n)[i] <= '9' by {
            if i < prev.len() {
                assert(decimal_text(n)[i] == prev[i]);
            }
        }
    }
}

/// Texts that each come no later than the other are equal.
pub proof fn lemma_text_le_antisymmetric(a: Seq<char>, b: Seq<char>, k: int)
    requires
        0 <= k <= a.len(),
        k <= b.len(),
        a.take(k) == b.take(k),
        text_le_from(a, b, k),
        text_le_from(b, a, k),
    ensures
        a == b,
    decreases a.len() - k,
{
    if k < a.len() && k < b.len() {
        assert(a.take(k + 1) =~= a.take(k).push(a[k]));
        assert(b.take(k + 1) =~= b.take(k).push(b[k]));
        assert(a[k] == b[k]);
        lemma_text_le_antisymmetric(a, b, k + 1);
    } else {
        assert(a.take(k) =~= a);
        assert(b.take(k) =~= b);
    }
}

} // verus!
