use vstd::prelude::*;

verus! {

/// The character of a decimal digit 0 to 9.
pub open spec fn digit_char(d: int) -> char {
    if d == 0 { '0' }
    else if d == 1 { '1' }
    else if d == 2 { '2' }
    else if d == 3 { '3' }
    else if d == 4 { '4' }
    else if d == 5 { '5' }
    else if d == 6 { '6' }
    else if d == 7 { '7' }
    else if d == 8 { '8' }
    else { '9' }
}

/// Whether `c` is an ASCII decimal digit.
pub open spec fn is_digit(c: char) -> bool {
    '0' <= c && c <= '9'
}

/// The value of an ASCII decimal digit.
pub open spec fn digit_value(c: char) -> int {
    if c == '0' { 0 }
    else if c == '1' { 1 }
    else if c == '2' { 2 }
    else if c == '3' { 3 }
    else if c == '4' { 4 }
    else if c == '5' { 5 }
    else if c == '6' { 6 }
    else if c == '7' { 7 }
    else if c == '8' { 8 }
    else { 9 }
}

/// The shortest decimal text of `n`.
pub open spec fn decimal(n: nat) -> Seq<char>
    decreases n,
{
    if n < 10 {
        seq![digit_char(n as int)]
    } else {
        decimal(n / 10).push(digit_char((n % 10) as int))
    }
}

/// Every character of `s` is a decimal digit.
pub open spec fn all_digits(s: Seq<char>) -> bool {
    forall|i: int| 0 <= i < s.len() ==> is_digit(#[trigger] s[i])
}

/// The number that a text of decimal digits denotes.
pub open spec fn digits_value(s: Seq<char>) -> nat
    decreases s.len(),
{
    if s.len() == 0 {
        0
    } else {
        digits_value(s.drop_last()) * 10 + digit_value(s.last()) as nat
    }
}

/// The digits of an unsigned number's text: all after a leading `+`, if there is one.
pub open spec fn unsigned_digits(s: Seq<char>) -> Seq<char> {
    if s.len() > 0 && s[0] == '+' { s.skip(1) } else { s }
}

/// The 16-bit unsigned number that `s` denotes: an optional `+` and one or more
/// decimal digits, of a value that fits; `None` for any other text.
pub open spec fn u16_value(s: Seq<char>) -> Option<u16> {
    let d = unsigned_digits(s);
    if d.len() > 0 && all_digits(d) && digits_value(d) <= u16::MAX {
        Some(digits_value(d) as u16)
    } else {
        None
    }
}

/// Whether `c` is white space (the Unicode `White_Space` property).
pub open spec fn is_space(c: char) -> bool {
    ('\u{9}' <= c && c <= '\u{d}') || c == ' ' || c == '\u{85}' || c == '\u{a0}'
        || c == '\u{1680}' || ('\u{2000}' <= c && c <= '\u{200a}') || c == '\u{2028}'
        || c == '\u{2029}' || c == '\u{202f}' || c == '\u{205f}' || c == '\u{3000}'
}

/// Every character of `s` is white space.
pub open spec fn all_spaces(s: Seq<char>) -> bool {
    forall|i: int| 0 <= i < s.len() ==> is_space(#[trigger] s[i])
}

/// `s` is `word` with white space, possibly none, before and after it.
pub open spec fn padded(s: Seq<char>, word: Seq<char>) -> bool {
    exists|i: int|
        0 <= i && i + word.len() <= s.len() && all_spaces(s.take(i)) && #[trigger] s.subrange(
            i,
            i + word.len(),
        ) == word && all_spaces(s.skip(i + word.len()))
}

/// The fields of `s` between the separator `sep`, in order; a text with `k`
/// separators has `k + 1` fields.
pub open spec fn split_on(s: Seq<char>, sep: char) -> Seq<Seq<char>>
    decreases s.len(),
{
    if s.len() == 0 {
        seq![Seq::<char>::empty()]
    } else {
        let r = split_on(s.drop_last(), sep);
        if s.last() == sep {
            r.push(Seq::<char>::empty())
        } else {
            r.update(r.len() - 1, r.last().push(s.last()))
        }
    }
}

/// `sep` does not occur in `s`.
pub open spec fn free_of(s: Seq<char>, sep: char) -> bool {
    forall|i: int| 0 <= i < s.len() ==> #[trigger] s[i] != sep
}

/// Splitting gives at least one field.
pub proof fn lemma_split_nonempty(s: Seq<char>, sep: char)
    ensures
        split_on(s, sep).len() >= 1,
    decreases s.len(),
{
    if s.len() > 0 {
        lemma_split_nonempty(s.drop_last(), sep);
    }
}

/// Appending text free of the separator extends the last field.
pub proof fn lemma_split_extend(p: Seq<char>, y: Seq<char>, sep: char)
    requires
        free_of(y, sep),
    ensures
        split_on(p + y, sep) == split_on(p, sep).update(
            split_on(p, sep).len() - 1,
            split_on(p, sep).last() + y,
        ),
    decreases y.len(),
{
    lemma_split_nonempty(p, sep);
    if y.len() == 0 {
        assert(p + y == p);
        assert(split_on(p, sep).last() + y == split_on(p, sep).last());
        assert(split_on(p, sep).update(split_on(p, sep).len() - 1, split_on(p, sep).last())
            == split_on(p, sep));
    } else {
        let y0 = y.drop_last();
        assert(free_of(y0, sep));
        lemma_split_extend(p, y0, sep);
        assert((p + y).drop_last() == p + y0);
        assert((p + y).last() == y.last());
        lemma_split_nonempty(p + y0, sep);
        assert(y[y.len() - 1] != sep);
        let sp = split_on(p, sep);
        let r = split_on(p + y0, sep);
        assert(r.len() == sp.len());
        assert(r.last() == sp.last() + y0);
        assert((sp.last() + y0).push(y.last()) =~= sp.last() + y);
        assert(split_on(p + y, sep) == r.update(r.len() - 1, r.last().push((p + y).last())));
        assert(split_on(p + y, sep) =~= sp.update(sp.len() - 1, sp.last() + y));
    }
}

/// Joining fields free of the separator with it, then splitting, gives them back.
pub proof fn lemma_split_join(p: Seq<char>, y: Seq<char>, sep: char)
    requires
        free_of(y, sep),
    ensures
        split_on(p.push(sep) + y, sep) == split_on(p, sep).push(y),
{
    lemma_split_nonempty(p, sep);
    lemma_split_extend(p.push(sep), y, sep);
    assert(p.push(sep).drop_last() == p);
    assert(Seq::<char>::empty() + y == y);
}

/// A single field free of the separator splits into itself.
pub proof fn lemma_split_single(y: Seq<char>, sep: char)
    requires
        free_of(y, sep),
    ensures
        split_on(y, sep) == seq![y],
{
    lemma_split_extend(Seq::<char>::empty(), y, sep);
    assert(Seq::<char>::empty() + y == y);
    assert(Seq::<char>::empty().len() == 0);
    assert(seq![Seq::<char>::empty()].update(0, Seq::<char>::empty() + y) == seq![y]);
}

/// The decimal text of a number is digits only, and denotes the number.
pub proof fn lemma_decimal_value(n: nat)
    ensures
        decimal(n).len() > 0,
        all_digits(decimal(n)),
        digits_value(decimal(n)) == n,
        decimal(n)[0] != '+',
    decreases n,
{
    if n < 10 {
        assert(decimal(n).drop_last() =~= Seq::<char>::empty());
        assert(digits_value(decimal(n)) == digits_value(Seq::<char>::empty()) * 10 + digit_value(
            digit_char(n as int),
        ) as nat);
    } else {
        lemma_decimal_value(n / 10);
        let d = decimal(n);
        assert(d.drop_last() == decimal(n / 10));
        vstd::arithmetic::div_mod::lemma_fundamental_div_mod(n as int, 10);
        assert(digits_value(d) == digits_value(decimal(n / 10)) * 10 + digit_value(
            digit_char((n % 10) as int),
        ) as nat);
        assert forall|i: int| 0 <= i < d.len() implies is_digit(#[trigger] d[i]) by {
            if i < d.len() - 1 {
                assert(d[i] == decimal(n / 10)[i]);
            }
        }
    }
}

/// Every character of a `&str` in order.
pub fn chars_of(s: &str) -> (r: Vec<char>)
    ensures
        r@ == s@,
{
    let n = s.unicode_len();
    let mut r: Vec<char> = Vec::new();
    let mut i: usize = 0;
    while i < n
        invariant
            n == s@.len(),
            i <= n,
            r@ == s@.take(i as int),
        decreases n - i,
    {
        r.push(s.get_char(i));
        i += 1;
        assert(r@ == s@.take(i as int));
    }
    assert(s@.take(n as int) == s@);
    r
}

/// Relies on `Iterator::collect` into a `String` from `char`s: the characters in order.
#[verifier::external_body]
pub(crate) fn string_of(v: &Vec<char>) -> (r: String)
    ensures
        r@ == v@,
{
    v.iter().collect()
}

/// Whether `v` holds the characters of `lit`.
pub fn same_text(v: &Vec<char>, lit: &str) -> (r: bool)
    ensures
        r == (v@ == lit@),
{
    let n = lit.unicode_len();
    if v.len() != n {
        return false;
    }
    let mut i: usize = 0;
    while i < n
        invariant
            n == lit@.len(),
            n == v@.len(),
            i <= n,
            v@.take(i as int) == lit@.take(i as int),
        decreases n - i,
    {
        if v[i] != lit.get_char(i) {
            return false;
        }
        i += 1;
        assert(v@.take(i as int) == lit@.take(i as int));
    }
    assert(v@ == v@.take(n as int));
    assert(lit@ == lit@.take(n as int));
    true
}

/// The character of the decimal digit `d`.
fn digit_to_char(d: u64) -> (r: char)
    requires
        d < 10,
    ensures
        r == digit_char(d as int),
{
    match d {
        0 => '0',
        1 => '1',
        2 => '2',
        3 => '3',
        4 => '4',
        5 => '5',
        6 => '6',
        7 => '7',
        8 => '8',
        _ => '9',
    }
}

/// The value of the decimal digit `c`.
fn char_to_digit(c: char) -> (r: u64)
    requires
        is_digit(c),
    ensures
        r == digit_value(c),
        r < 10,
{
    if c == '0' { 0 }
    else if c == '1' { 1 }
    else if c == '2' { 2 }
    else if c == '3' { 3 }
    else if c == '4' { 4 }
    else if c == '5' { 5 }
    else if c == '6' { 6 }
    else if c == '7' { 7 }
    else if c == '8' { 8 }
    else { 9 }
}

/// The shortest decimal text of `n`.
pub fn decimal_chars(n: u64) -> (r: Vec<char>)
    ensures
        r@ == decimal(n as nat),
    decreases n,
{
    if n < 10 {
        vec![digit_to_char(n)]
    } else {
        let mut r = decimal_chars(n / 10);
        r.push(digit_to_char(n % 10));
        r
    }
}

/// The 16-bit unsigned number that `s` denotes (see `u16_value`).
pub fn parse_u16(s: &Vec<char>) -> (r: Option<u16>)
    ensures
        r == u16_value(s@),
{
    let start: usize = if s.len() > 0 && s[0] == '+' { 1 } else { 0 };
    let ghost d = unsigned_digits(s@);
    assert(d == s@.skip(start as int));
    if start >= s.len() {
        assert(d.len() == 0);
        return None;
    }
    let mut value: u64 = 0;
    let mut i: usize = start;
    while i < s.len()
        invariant
            start <= i <= s@.len(),
            d == s@.skip(start as int),
            d == unsigned_digits(s@),
            all_digits(d.take(i - start)),
            value == digits_value(d.take(i - start)),
            value <= u16::MAX,
        decreases s@.len() - i,
    {
        let c = s[i];
        assert(d.take(i + 1 - start).drop_last() == d.take(i - start));
        assert(d.take(i + 1 - start).last() == c);
        if !('0' <= c && c <= '9') {
            assert(d[i - start] == c);
            return None;
        }
        value = value * 10 + char_to_digit(c);
        assert(value == digits_value(d.take(i + 1 - start)));
        if value > u16::MAX as u64 {
            assert(digits_value(d) > u16::MAX) by {
                lemma_digits_prefix_grows(d, i + 1 - start);
            }
            return None;
        }
        i += 1;
        assert(all_digits(d.take(i - start))) by {
            assert forall|k: int| 0 <= k < d.take(i - start).len() implies is_digit(
                #[trigger] d.take(i - start)[k],
            ) by {
                if k < i - 1 - start {
                    assert(d.take(i - start)[k] == d.take(i - 1 - start)[k]);
                }
            }
        }
    }
    assert(d.take(s@.len() - start) == d);
    assert(d.len() > 0);
    Some(value as u16)
}

/// A longer prefix of a digit text denotes at least as much.
proof fn lemma_digits_prefix_grows(d: Seq<char>, k: int)
    requires
        0 <= k <= d.len(),
    ensures
        digits_value(d.take(k)) <= digits_value(d),
    decreases d.len() - k,
{
    if k < d.len() {
        lemma_digits_prefix_grows(d, k + 1);
        assert(d.take(k + 1).drop_last() == d.take(k));
    }
    else {
        assert(d.take(k) == d);
    }
}

/// Whether `c` is white space (see `is_space`).
fn char_is_space(c: char) -> (r: bool)
    ensures
        r == is_space(c),
{
    ('\u{9}' <= c && c <= '\u{d}') || c == ' ' || c == '\u{85}' || c == '\u{a0}'
        || c == '\u{1680}' || ('\u{2000}' <= c && c <= '\u{200a}') || c == '\u{2028}'
        || c == '\u{2029}' || c == '\u{202f}' || c == '\u{205f}' || c == '\u{3000}'
}

/// Whether `s` is `word` with white space, possibly none, before and after it.
pub fn is_padded(s: &Vec<char>, word: &str) -> (r: bool)
    requires
        word@.len() > 0,
        !is_space(word@[0]),
        !is_space(word@.last()),
    ensures
        r == padded(s@, word@),
{
    let n = s.len();
    let mut i: usize = 0;
    while i < n && char_is_space(s[i])
        invariant
            i <= n == s@.len(),
            all_spaces(s@.take(i as int)),
        decreases n - i,
    {
        i += 1;
        assert(s@.take(i as int).drop_last() == s@.take(i - 1));
    }
    let mut j: usize = n;
    while j > i && char_is_space(s[j - 1])
        invariant
            i <= j <= n == s@.len(),
            all_spaces(s@.skip(j as int)),
            i < n ==> !is_space(s@[i as int]),
        decreases j,
    {
        j -= 1;
        proof {
            assert forall|k: int| 0 <= k < s@.skip(j as int).len() implies is_space(
                #[trigger] s@.skip(j as int)[k],
            ) by {
                if k > 0 {
                    assert(s@.skip(j as int)[k] == s@.skip(j + 1)[k - 1]);
                }
            }
        }
    }
    let wl = word.unicode_len();
    if j - i != wl {
        proof { lemma_not_padded(s@, word@, i as int, j as int); }
        return false;
    }
    let mut k: usize = 0;
    while k < wl
        invariant
            j - i == wl == word@.len(),
            i <= j <= n == s@.len(),
            k <= wl,
            s@.subrange(i as int, i + k) == word@.take(k as int),
            all_spaces(s@.take(i as int)),
            all_spaces(s@.skip(j as int)),
            i < j ==> !is_space(s@[i as int]) && !is_space(s@[j - 1]),
            word@.len() > 0,
            !is_space(word@[0]),
            !is_space(word@.last()),
        decreases wl - k,
    {
        if s[i + k] != word.get_char(k) {
            proof {
                assert(s@.subrange(i as int, j as int)[k as int] == s@[i + k]);
                lemma_not_padded(s@, word@, i as int, j as int);
            }
            return false;
        }
        k += 1;
        assert(s@.subrange(i as int, i + k) == word@.take(k as int));
    }
    assert(word@.take(wl as int) == word@);
    assert(s@.subrange(i as int, i + wl) == word@);
    true
}

/// Where the white space around `s` ends at `i` and starts again at `j`, and the
/// text between is not `word`, `s` is not `word` padded with white space.
proof fn lemma_not_padded(s: Seq<char>, word: Seq<char>, i: int, j: int)
    requires
        word.len() > 0,
        !is_space(word[0]),
        !is_space(word.last()),
        0 <= i <= j <= s.len(),
        all_spaces(s.take(i)),
        all_spaces(s.skip(j)),
        i < j ==> !is_space(s[i]) && !is_space(s[j - 1]),
        s.subrange(i, j) != word,
    ensures
        !padded(s, word),
{
    if padded(s, word) {
        let a = choose|a: int|
            0 <= a && a + word.len() <= s.len() && all_spaces(s.take(a)) && #[trigger] s.subrange(
                a,
                a + word.len(),
            ) == word && all_spaces(s.skip(a + word.len()));
        let b = a + word.len();
        assert(s[a] == word[0]) by { assert(s.subrange(a, b)[0] == s[a]); }
        assert(s[b - 1] == word.last()) by { assert(s.subrange(a, b)[word.len() - 1] == s[b - 1]); }
        if a < i {
            assert(s.take(i)[a] == s[a]);
        }
        if i < a {
            assert(s.take(a)[i] == s[i]);
            if j <= a {
                assert(s.skip(j)[a - j] == s[a]);
            }
        }
        assert(a == i);
        if b < j {
            assert(s.skip(b)[j - 1 - b] == s[j - 1]);
        }
        if j < b {
            assert(s.skip(j)[b - 1 - j] == s[b - 1]);
        }
        assert(b == j);
    }
}

/// The fields of `s` between the separator `sep` (see `split_on`).
pub fn split_chars(s: &Vec<char>, sep: char) -> (r: Vec<Vec<char>>)
    ensures
        r@.map_values(|f: Vec<char>| f@) == split_on(s@, sep),
{
    let mut fields: Vec<Vec<char>> = Vec::new();
    let mut cur: Vec<char> = Vec::new();
    let mut i: usize = 0;
    while i < s.len()
        invariant
            i <= s@.len(),
            fields@.map_values(|f: Vec<char>| f@).push(cur@) == split_on(s@.take(i as int), sep),
        decreases s@.len() - i,
    {
        let c = s[i];
        proof {
            assert(s@.take(i + 1).drop_last() == s@.take(i as int));
            assert(s@.take(i + 1).last() == c);
        }
        if c == sep {
            let done = cur;
            cur = Vec::new();
            fields.push(done);
            assert(fields@.map_values(|f: Vec<char>| f@) == split_on(s@.take(i as int), sep));
        } else {
            cur.push(c);
        }
        i += 1;
        assert(fields@.map_values(|f: Vec<char>| f@).push(cur@) =~= split_on(s@.take(i as int), sep));
    }
    assert(s@.take(s@.len() as int) == s@);
    fields.push(cur);
    assert(fields@.map_values(|f: Vec<char>| f@) =~= split_on(s@, sep));
    fields
}

/// A line without the carriage return that ends it, if one does.
pub open spec fn strip_cr(p: Seq<char>) -> Seq<char> {
    if p.len() > 0 && p.last() == '\r' {
        p.drop_last()
    } else {
        p
    }
}

/// The lines of a text: split at each `\n`, with a `\r` dropped from the end of
/// each piece that a `\n` follows, and the piece after the last `\n` dropped when empty.
pub open spec fn text_lines(s: Seq<char>) -> Seq<Seq<char>> {
    let pieces = split_on(s, '\n');
    let ended = pieces.drop_last().map_values(|p: Seq<char>| strip_cr(p));
    if pieces.last().len() == 0 {
        ended
    } else {
        ended.push(pieces.last())
    }
}

/// The lines of `s` (see `text_lines`).
pub fn lines_of(s: &str) -> (r: Vec<String>)
    ensures
        r@.map_values(|l: String| l@) == text_lines(s@),
{
    let v = chars_of(s);
    let pieces = split_chars(&v, '\n');
    let ghost all = split_on(s@, '\n');
    proof {
        lemma_split_nonempty(s@, '\n');
    }
    assert(pieces@.len() == all.len());
    let last = pieces.len() - 1;
    let mut r: Vec<String> = Vec::new();
    let mut i: usize = 0;
    while i < last
        invariant
            last == pieces@.len() - 1,
            pieces@.map_values(|f: Vec<char>| f@) == all,
            i <= last,
            r@.map_values(|l: String| l@) == all.take(i as int).map_values(
                |p: Seq<char>| strip_cr(p),
            ),
        decreases last - i,
    {
        let p = &pieces[i];
        assert(p@ == all[i as int]) by {
            assert(pieces@.map_values(|f: Vec<char>| f@)[i as int] == pieces@[i as int]@);
        }
        let line = if p.len() > 0 && p[p.len() - 1] == '\r' {
            let mut q: Vec<char> = Vec::new();
            let mut k: usize = 0;
            while k < p.len() - 1
                invariant
                    0 < p@.len(),
                    k <= p@.len() - 1,
                    q@ == p@.take(k as int),
                decreases p@.len() - 1 - k,
            {
                q.push(p[k]);
                k += 1;
                assert(q@ == p@.take(k as int));
            }
            assert(q@ == p@.drop_last());
            string_of(&q)
        } else {
            string_of(p)
        };
        assert(line@ == strip_cr(all[i as int]));
        let ghost before = r@.map_values(|l: String| l@);
        let ghost text = line@;
        r.push(line);
        assert(r@.map_values(|l: String| l@) =~= before.push(text));
        assert(all.take(i + 1).map_values(|p: Seq<char>| strip_cr(p)) =~= all.take(
            i as int,
        ).map_values(|p: Seq<char>| strip_cr(p)).push(strip_cr(all[i as int])));
        i += 1;
    }
    assert(all.take(last as int) == all.drop_last());
    assert(pieces@[last as int]@ == all.last()) by {
        assert(pieces@.map_values(|f: Vec<char>| f@)[last as int] == pieces@[last as int]@);
    }
    if pieces[last].len() > 0 {
        r.push(string_of(&pieces[last]));
        assert(r@.map_values(|l: String| l@) =~= text_lines(s@));
    }
    r
}

} // verus!
