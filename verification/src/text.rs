//! Text: decimal numbers, white space, splitting, searching and comparing.
//!
//! A string is modelled by the sequence of its characters.

use vstd::prelude::*;

verus! {

/// The decimal digit `d` as a character.
pub open spec fn digit_char(d: nat) -> char {
    (48 + d) as char
}

/// `n` written in decimal, without leading zeros.
pub open spec fn decimal(n: nat) -> Seq<char>
    decreases n,
{
    if n < 10 {
        seq![digit_char(n)]
    } else {
        decimal(n / 10).push(digit_char(n % 10))
    }
}

/// One decimal digit as text.
fn digit_text(d: u64) -> (text: &'static str)
    requires
        d < 10,
    ensures
        text@ == seq![digit_char(d as nat)],
{
    proof {
        reveal_strlit("0");
        reveal_strlit("1");
        reveal_strlit("2");
        reveal_strlit("3");
        reveal_strlit("4");
        reveal_strlit("5");
        reveal_strlit("6");
        reveal_strlit("7");
        reveal_strlit("8");
        reveal_strlit("9");
    }
    match d {
        0 => "0",
        1 => "1",
        2 => "2",
        3 => "3",
        4 => "4",
        5 => "5",
        6 => "6",
        7 => "7",
        8 => "8",
        _ => "9",
    }
}

/// `n` in decimal.
pub fn decimal_text(n: u64) -> (text: String)
    ensures
        text@ == decimal(n as nat),
    decreases n,
{
    if n < 10 {
        digit_text(n).to_string()
    } else {
        let mut text = decimal_text(n / 10);
        text.append(digit_text(n % 10));
        text
    }
}

/// `n` in decimal.
pub fn count_text(n: usize) -> (text: String)
    ensures
        text@ == decimal(n as nat),
{
    decimal_text(n as u64)
}

/// Three pieces of text, one after another.
pub fn join3(a: &str, b: &str, c: &str) -> (text: String)
    ensures
        text@ == a@ + b@ + c@,
{
    let mut text = a.to_string();
    text.append(b);
    text.append(c);
    text
}

/// Whether two strings hold the same characters.
pub fn same_text(a: &str, b: &str) -> (same: bool)
    ensures
        same == (a@ == b@),
{
    let n: usize = a.unicode_len();
    if n != b.unicode_len() {
        return false;
    }
    let mut i: usize = 0;
    while i < n
        invariant
            i <= n,
            n == a@.len(),
            n == b@.len(),
            forall|j: int| 0 <= j < i ==> a@[j] == b@[j],
        decreases n - i,
    {
        if a.get_char(i) != b.get_char(i) {
            return false;
        }
        i = i + 1;
    }
    assert(a@ =~= b@);
    true
}

/// Whether two characters are the same but for the case of an ASCII letter.
pub open spec fn same_letter(a: char, b: char) -> bool {
    ||| a == b
    ||| 'A' <= a <= 'Z' && b as int == a as int + 32
    ||| 'A' <= b <= 'Z' && a as int == b as int + 32
}

/// Whether two texts are the same but for the case of ASCII letters.
pub open spec fn same_letters(a: Seq<char>, b: Seq<char>) -> bool {
    a.len() == b.len() && forall|i: int| 0 <= i < a.len() ==> same_letter(#[trigger] a[i], b[i])
}

/// Whether two strings are the same but for the case of ASCII letters.
pub fn same_but_case(a: &str, b: &str) -> (same: bool)
    ensures
        same == same_letters(a@, b@),
{
    let n: usize = a.unicode_len();
    if n != b.unicode_len() {
        return false;
    }
    let mut i: usize = 0;
    while i < n
        invariant
            i <= n,
            n == a@.len(),
            n == b@.len(),
            forall|j: int| 0 <= j < i ==> same_letter(#[trigger] a@[j], b@[j]),
        decreases n - i,
    {
        let x = a.get_char(i);
        let y = b.get_char(i);
        let same = x == y || ('A' <= x && x <= 'Z' && y as u32 == x as u32 + 32) || ('A' <= y && y
            <= 'Z' && x as u32 == y as u32 + 32);
        if !same {
            assert(!same_letter(a@[i as int], b@[i as int]));
            return false;
        }
        i = i + 1;
    }
    true
}

/// A character of Unicode's `White_Space` property.
pub open spec fn is_white_space(c: char) -> bool {
    let n = c as int;
    9 <= n <= 13 || n == 0x20 || n == 0x85 || n == 0xA0 || n == 0x1680 || 0x2000 <= n <= 0x200A
        || n == 0x2028 || n == 0x2029 || n == 0x202F || n == 0x205F || n == 0x3000
}

/// `is_white_space`, to run.
fn white_space(c: char) -> (yes: bool)
    ensures
        yes == is_white_space(c),
{
    let n: u32 = c as u32;
    (9 <= n && n <= 13) || n == 0x20 || n == 0x85 || n == 0xA0 || n == 0x1680 || (0x2000 <= n && n
        <= 0x200A) || n == 0x2028 || n == 0x2029 || n == 0x202F || n == 0x205F || n == 0x3000
}

/// `s` without its leading white space.
pub open spec fn trimmed_start(s: Seq<char>) -> Seq<char>
    decreases s.len(),
{
    if s.len() > 0 && is_white_space(s[0]) {
        trimmed_start(s.skip(1))
    } else {
        s
    }
}

/// `s` without its trailing white space.
pub open spec fn trimmed_end(s: Seq<char>) -> Seq<char>
    decreases s.len(),
{
    if s.len() > 0 && is_white_space(s.last()) {
        trimmed_end(s.drop_last())
    } else {
        s
    }
}

/// `s` without the white space at its two ends.
pub open spec fn trimmed(s: Seq<char>) -> Seq<char> {
    trimmed_end(trimmed_start(s))
}

/// The text without its leading white space.
pub fn trim_start(s: &str) -> (r: &str)
    ensures
        r@ == trimmed_start(s@),
{
    let n: usize = s.unicode_len();
    let mut from: usize = 0;
    assert(s@.skip(0) =~= s@);
    while from < n && white_space(s.get_char(from))
        invariant
            from <= n,
            n == s@.len(),
            trimmed_start(s@) == trimmed_start(s@.skip(from as int)),
        decreases n - from,
    {
        assert(s@.skip(from as int).skip(1) =~= s@.skip(from + 1));
        from = from + 1;
    }
    assert(s@.skip(from as int) =~= s@.subrange(from as int, n as int));
    s.substring_char(from, n)
}

/// The text without the white space at its two ends.
pub fn trim(s: &str) -> (r: &str)
    ensures
        r@ == trimmed(s@),
{
    let t = trim_start(s);
    let n: usize = t.unicode_len();
    let mut to: usize = n;
    assert(t@.take(n as int) =~= t@);
    while to > 0 && white_space(t.get_char(to - 1))
        invariant
            to <= n,
            n == t@.len(),
            trimmed_end(t@) == trimmed_end(t@.take(to as int)),
        decreases to,
    {
        assert(t@.take(to as int).drop_last() =~= t@.take(to - 1));
        to = to - 1;
    }
    assert(t@.take(to as int) =~= t@.subrange(0, to as int));
    t.substring_char(0, to)
}

/// Text that is trimmed has no white space at either end, so trimming it
/// again changes nothing.
pub proof fn trimming_twice_changes_nothing(s: Seq<char>)
    ensures
        trimmed(trimmed(s)) == trimmed(s),
{
    lemma_trimmed_start_head(s);
    let t = trimmed_start(s);
    lemma_trimmed_end_keeps_head(t);
    lemma_trimmed_end_tail(t);
    let u = trimmed_end(t);
    if u.len() > 0 {
        assert(trimmed_start(u) == u);
        assert(trimmed_end(u) == u);
    }
}

proof fn lemma_trimmed_start_head(s: Seq<char>)
    ensures
        trimmed_start(s).len() > 0 ==> !is_white_space(trimmed_start(s)[0]),
    decreases s.len(),
{
    if s.len() > 0 && is_white_space(s[0]) {
        lemma_trimmed_start_head(s.skip(1));
    }
}

proof fn lemma_trimmed_end_tail(s: Seq<char>)
    ensures
        trimmed_end(s).len() > 0 ==> !is_white_space(trimmed_end(s).last()),
    decreases s.len(),
{
    if s.len() > 0 && is_white_space(s.last()) {
        lemma_trimmed_end_tail(s.drop_last());
    }
}

proof fn lemma_trimmed_end_keeps_head(s: Seq<char>)
    ensures
        trimmed_end(s).len() > 0 ==> trimmed_end(s)[0] == s[0],
    decreases s.len(),
{
    if s.len() > 0 && is_white_space(s.last()) {
        lemma_trimmed_end_keeps_head(s.drop_last());
    }
}

/// An ASCII decimal digit.
pub open spec fn is_digit(c: char) -> bool {
    48 <= c as int <= 57
}

/// `is_digit`, to run.
pub fn ascii_digit(c: char) -> (yes: bool)
    ensures
        yes == is_digit(c),
{
    let n: u32 = c as u32;
    48 <= n && n <= 57
}

/// The number a run of digits stands for.
pub open spec fn digits_value(s: Seq<char>) -> nat
    decreases s.len(),
{
    if s.len() == 0 {
        0
    } else {
        digits_value(s.drop_last()) * 10 + (s.last() as int - 48) as nat
    }
}

/// The digits of a number as a form field holds it: an optional `+` first.
pub open spec fn unsigned_digits(s: Seq<char>) -> Seq<char> {
    if s.len() > 0 && s[0] == '+' {
        s.skip(1)
    } else {
        s
    }
}

/// The unsigned number `s` is: an optional `+`, then one digit or more.
pub open spec fn parsed_number(s: Seq<char>) -> Option<nat> {
    let digits = unsigned_digits(s);
    if digits.len() > 0 && (forall|i: int| 0 <= i < digits.len() ==> is_digit(#[trigger] digits[i])) {
        Some(digits_value(digits))
    } else {
        None
    }
}

/// `parsed_number`, where it is at most `max`.
pub open spec fn parsed_at_most(s: Seq<char>, max: nat) -> Option<nat> {
    match parsed_number(s) {
        Some(v) => if v <= max {
            Some(v)
        } else {
            None
        },
        None => None,
    }
}

proof fn lemma_digits_value_grows(s: Seq<char>, k: int)
    requires
        0 <= k <= s.len(),
        forall|i: int| 0 <= i < s.len() ==> is_digit(#[trigger] s[i]),
    ensures
        digits_value(s.take(k)) <= digits_value(s),
    decreases s.len() - k,
{
    if k == s.len() {
        assert(s.take(k) =~= s);
    } else {
        lemma_digits_value_grows(s, k + 1);
        assert(s.take(k + 1).drop_last() =~= s.take(k));
        assert(is_digit(s[k]));
    }
}

/// The unsigned number `s` is, if it is one that fits in 64 bits.
pub fn parse_u64(s: &str) -> (r: Option<u64>)
    ensures
        (match r {
            Some(v) => parsed_at_most(s@, u64::MAX as nat) == Some(v as nat),
            None => parsed_at_most(s@, u64::MAX as nat) is None,
        }),
{
    let n: usize = s.unicode_len();
    let from: usize = if n > 0 && s.get_char(0) == '+' {
        1
    } else {
        0
    };
    let ghost digits = unsigned_digits(s@);
    assert(digits =~= s@.skip(from as int));
    if from == n {
        return None;
    }
    let mut value: u64 = 0;
    let mut i: usize = from;
    assert(digits.take(0) =~= Seq::<char>::empty());
    while i < n
        invariant
            from <= i <= n,
            from < n,
            n == s@.len(),
            digits == unsigned_digits(s@),
            digits == s@.skip(from as int),
            forall|j: int| 0 <= j < i - from ==> is_digit(#[trigger] digits[j]),
            value == digits_value(digits.take(i - from)),
        decreases n - i,
    {
        let c = s.get_char(i);
        assert(digits[i - from] == c);
        if !ascii_digit(c) {
            return None;
        }
        assert(digits.take(i - from + 1).drop_last() =~= digits.take(i - from));
        let d: u64 = (c as u32 - 48) as u64;
        let ghost next = digits_value(digits.take(i - from + 1));
        assert(next == value * 10 + d);
        let fits = value < u64::MAX / 10 || (value == u64::MAX / 10 && d <= u64::MAX % 10);
        if !fits {
            proof {
                if parsed_number(s@) is Some {
                    lemma_digits_value_grows(digits, i - from + 1);
                }
            }
            return None;
        }
        value = value * 10 + d;
        i = i + 1;
    }
    assert(digits.take(n - from) =~= digits);
    Some(value)
}

/// The unsigned number `s` is, if it is one that fits in 32 bits.
pub fn parse_u32(s: &str) -> (r: Option<u32>)
    ensures
        (match r {
            Some(v) => parsed_at_most(s@, u32::MAX as nat) == Some(v as nat),
            None => parsed_at_most(s@, u32::MAX as nat) is None,
        }),
{
    match parse_u64(s) {
        Some(v) => if v <= u32::MAX as u64 {
            Some(v as u32)
        } else {
            None
        },
        None => None,
    }
}

/// Where `c` first stands in `s`, or the length of `s`.
pub open spec fn index_of_char(s: Seq<char>, c: char) -> int
    decreases s.len(),
{
    if s.len() == 0 || s[0] == c {
        0
    } else {
        1 + index_of_char(s.skip(1), c)
    }
}

proof fn lemma_index_of_char(s: Seq<char>, c: char, k: int)
    requires
        0 <= k <= s.len(),
        forall|i: int| 0 <= i < k ==> s[i] != c,
        k == s.len() || s[k] == c,
    ensures
        index_of_char(s, c) == k,
    decreases k,
{
    if k > 0 {
        assert forall|i: int| 0 <= i < k - 1 implies s.skip(1)[i] != c by {
            assert(s.skip(1)[i] == s[i + 1]);
        }
        lemma_index_of_char(s.skip(1), c, k - 1);
    }
}

/// Where `c` first stands in `s` at or after `from`, or the length of `s`.
pub fn find_char(s: &str, from: usize, c: char) -> (at: usize)
    requires
        from <= s@.len(),
    ensures
        from <= at <= s@.len(),
        at == from + index_of_char(s@.skip(from as int), c),
        forall|i: int| from <= i < at ==> s@[i] != c,
        at < s@.len() ==> s@[at as int] == c,
{
    let n: usize = s.unicode_len();
    let mut at: usize = from;
    while at < n && s.get_char(at) != c
        invariant
            from <= at <= n,
            n == s@.len(),
            forall|i: int| from <= i < at ==> s@[i] != c,
        decreases n - at,
    {
        at = at + 1;
    }
    proof {
        lemma_index_of_char(s@.skip(from as int), c, at - from);
    }
    at
}

/// The pieces of `s` between the separators `sep`. There is always one more
/// piece than there are separators.
pub open spec fn split_on(s: Seq<char>, sep: char) -> Seq<Seq<char>>
    decreases s.len(),
{
    let k = index_of_char(s, sep);
    if 0 <= k < s.len() {
        seq![s.take(k)] + split_on(s.skip(k + 1), sep)
    } else {
        seq![s]
    }
}

/// The texts of a list of strings.
pub open spec fn texts(v: Seq<String>) -> Seq<Seq<char>> {
    v.map_values(|s: String| s@)
}

/// The pieces of `s` between the separators `sep`.
pub fn split(s: &str, sep: char) -> (pieces: Vec<String>)
    ensures
        texts(pieces@) == split_on(s@, sep),
{
    let n: usize = s.unicode_len();
    let mut pieces: Vec<String> = Vec::new();
    let mut from: usize = 0;
    assert(s@.skip(0) =~= s@);
    assert(texts(pieces@) + split_on(s@.skip(0), sep) =~= split_on(s@, sep));
    loop
        invariant
            from <= n,
            n == s@.len(),
            texts(pieces@) + split_on(s@.skip(from as int), sep) == split_on(s@, sep),
        decreases n - from,
    {
        let at = find_char(s, from, sep);
        let piece = s.substring_char(from, at).to_string();
        let ghost rest = s@.skip(from as int);
        assert(rest.take(at - from) =~= piece@);
        let ghost before = pieces@;
        pieces.push(piece);
        assert(texts(pieces@) =~= texts(before).push(piece@));
        if at == n {
            assert(rest =~= piece@);
            assert(split_on(rest, sep) =~= seq![piece@]);
            assert(texts(pieces@) =~= split_on(s@, sep));
            return pieces;
        }
        assert(rest.skip(at - from + 1) =~= s@.skip(at + 1));
        assert(split_on(rest, sep) == seq![piece@] + split_on(s@.skip(at + 1), sep));
        assert(texts(pieces@) + split_on(s@.skip(at + 1), sep) =~= split_on(s@, sep));
        from = at + 1;
    }
}

/// Whether `s` reads `prefix` from the character `at` on.
pub open spec fn reads_at(s: Seq<char>, at: int, prefix: Seq<char>) -> bool {
    at + prefix.len() <= s.len() && s.subrange(at, at + prefix.len()) == prefix
}

/// Whether the text reads `prefix` from the character `at` on.
pub fn starts_at(s: &str, at: usize, prefix: &str) -> (yes: bool)
    requires
        at <= s@.len(),
    ensures
        yes == reads_at(s@, at as int, prefix@),
{
    let n: usize = s.unicode_len();
    let m: usize = prefix.unicode_len();
    if m > n - at {
        return false;
    }
    same_text(s.substring_char(at, at + m), prefix)
}

/// What follows `prefix` in `s`, if `s` starts with it.
pub open spec fn after_prefix(s: Seq<char>, prefix: Seq<char>) -> Option<Seq<char>> {
    if reads_at(s, 0, prefix) {
        Some(s.skip(prefix.len() as int))
    } else {
        None
    }
}

/// What follows `prefix`, if the text starts with it.
pub fn strip_prefix<'a>(s: &'a str, prefix: &str) -> (r: Option<&'a str>)
    ensures
        (match r {
            Some(rest) => after_prefix(s@, prefix@) == Some(rest@),
            None => after_prefix(s@, prefix@) is None,
        }),
{
    if starts_at(s, 0, prefix) {
        let n: usize = s.unicode_len();
        let m: usize = prefix.unicode_len();
        assert(s@.skip(m as int) =~= s@.subrange(m as int, n as int));
        Some(s.substring_char(m, n))
    } else {
        None
    }
}

/// Whether `a` comes strictly before `b`, character by character.
pub open spec fn text_before(a: Seq<char>, b: Seq<char>) -> bool
    decreases a.len(),
{
    if b.len() == 0 {
        false
    } else if a.len() == 0 {
        true
    } else if a[0] != b[0] {
        (a[0] as int) < (b[0] as int)
    } else {
        text_before(a.skip(1), b.skip(1))
    }
}

/// Whether one text comes strictly before another, character by character.
pub fn comes_before(a: &str, b: &str) -> (yes: bool)
    ensures
        yes == text_before(a@, b@),
{
    let n: usize = a.unicode_len();
    let m: usize = b.unicode_len();
    let mut i: usize = 0;
    assert(a@.skip(0) =~= a@);
    assert(b@.skip(0) =~= b@);
    while i < n && i < m
        invariant
            i <= n,
            i <= m,
            n == a@.len(),
            m == b@.len(),
            text_before(a@, b@) == text_before(a@.skip(i as int), b@.skip(i as int)),
        decreases n - i,
    {
        let x = a.get_char(i);
        let y = b.get_char(i);
        assert(a@.skip(i as int)[0] == x);
        assert(b@.skip(i as int)[0] == y);
        if x != y {
            return (x as u32) < (y as u32);
        }
        assert(a@.skip(i as int).skip(1) =~= a@.skip(i + 1));
        assert(b@.skip(i as int).skip(1) =~= b@.skip(i + 1));
        i = i + 1;
    }
    i < m
}

/// Of two different texts one comes before the other, and never both.
pub proof fn text_order_is_total(a: Seq<char>, b: Seq<char>)
    ensures
        text_before(a, b) ==> !text_before(b, a),
        a == b || text_before(a, b) || text_before(b, a),
    decreases a.len(),
{
    if a.len() > 0 && b.len() > 0 {
        if a[0] == b[0] {
            text_order_is_total(a.skip(1), b.skip(1));
            if a.skip(1) == b.skip(1) {
                assert(a =~= b) by {
                    assert forall|i: int| 0 <= i < a.len() implies a[i] == b[i] by {
                        if i > 0 {
                            assert(a[i] == a.skip(1)[i - 1]);
                            assert(b[i] == b.skip(1)[i - 1]);
                        }
                    }
                }
            }
        }
    } else if a.len() == 0 && b.len() == 0 {
        assert(a =~= b);
    }
}

/// A text that comes before another comes before whatever that one comes
/// before.
pub proof fn text_order_is_transitive(a: Seq<char>, b: Seq<char>, c: Seq<char>)
    requires
        text_before(a, b),
        text_before(b, c),
    ensures
        text_before(a, c),
    decreases a.len(),
{
    if a.len() > 0 && b.len() > 0 && c.len() > 0 && a[0] == b[0] && b[0] == c[0] {
        text_order_is_transitive(a.skip(1), b.skip(1), c.skip(1));
    }
}

/// Some texts one after another, with `sep` between them.
pub open spec fn joined(pieces: Seq<Seq<char>>, sep: Seq<char>) -> Seq<char>
    decreases pieces.len(),
{
    if pieces.len() == 0 {
        Seq::empty()
    } else if pieces.len() == 1 {
        pieces[0]
    } else {
        pieces[0] + sep + joined(pieces.skip(1), sep)
    }
}

/// Some texts one after another, with `sep` between them.
pub fn join(pieces: &Vec<String>, sep: &str) -> (r: String)
    ensures
        r@ == joined(texts(pieces@), sep@),
{
    let ghost all = texts(pieces@);
    let mut r = String::new();
    let mut i: usize = 0;
    assert(all.skip(0) =~= all);
    while i < pieces.len()
        invariant
            i <= pieces.len(),
            all == texts(pieces@),
            i == 0 ==> r@ == Seq::<char>::empty(),
            joined(all, sep@) == (if i == 0 {
                joined(all.skip(0), sep@)
            } else if i < pieces.len() {
                r@ + sep@ + joined(all.skip(i as int), sep@)
            } else {
                r@
            }),
        decreases pieces.len() - i,
    {
        let ghost rest = all.skip(i as int);
        let ghost before = r@;
        assert(rest[0] == pieces@[i as int]@);
        assert(rest.skip(1) =~= all.skip(i + 1));
        if i > 0 {
            r.append(sep);
        }
        r.append(&pieces[i]);
        proof {
            let last = rest.len() == 1;
            if i == 0 {
                assert(r@ =~= rest[0]);
            } else if last {
                assert(r@ =~= before + sep@ + joined(rest, sep@));
            } else {
                assert(r@ + sep@ + joined(rest.skip(1), sep@) =~= before + sep@ + joined(
                    rest,
                    sep@,
                ));
            }
        }
        i = i + 1;
    }
    r
}

/// A number reads back from its decimal form, which holds digits only, and
/// so no white space to trim.
pub proof fn a_number_reads_back_from_its_digits(n: nat)
    ensures
        parsed_number(decimal(n)) == Some(n),
        parsed_number(trimmed(decimal(n))) == Some(n),
        decimal(n).len() > 0,
        trimmed(decimal(n)) == decimal(n),
{
    lemma_decimal_digits(n);
    let d = decimal(n);
    assert(is_digit(d[0]));
    assert(is_digit(d[d.len() - 1]));
    assert(trimmed_start(d) == d);
    assert(trimmed_end(d) == d);
}

proof fn lemma_decimal_digits(n: nat)
    ensures
        decimal(n).len() > 0,
        forall|i: int| 0 <= i < decimal(n).len() ==> is_digit(#[trigger] decimal(n)[i]),
        digits_value(decimal(n)) == n,
    decreases n,
{
    if n >= 10 {
        lemma_decimal_digits(n / 10);
        assert(decimal(n).drop_last() =~= decimal(n / 10));
    } else {
        assert(decimal(n).drop_last() =~= Seq::<char>::empty());
        assert(digits_value(Seq::<char>::empty()) == 0);
    }
}

/// Text with no white space at its ends, and none of `sep` in it.
pub open spec fn is_item(s: Seq<char>, sep: char) -> bool {
    s.len() > 0 && trimmed(s) == s && !s.contains(sep)
}

/// The items between the separators: each piece trimmed, the blank ones left
/// out.
pub open spec fn items(s: Seq<char>, sep: char) -> Seq<Seq<char>> {
    split_on(s, sep).map_values(|piece: Seq<char>| trimmed(piece)).filter(
        |item: Seq<char>| item.len() > 0,
    )
}

/// The items of a text, each with no white space at its ends and no separator
/// in it.
pub proof fn items_are_trimmed(s: Seq<char>, sep: char)
    ensures
        forall|i: int| 0 <= i < items(s, sep).len() ==> is_item(#[trigger] items(s, sep)[i], sep),
{
    let pieces = split_on(s, sep).map_values(|piece: Seq<char>| trimmed(piece));
    let keep = |item: Seq<char>| item.len() > 0;
    lemma_pieces_hold_no_separator(s, sep);
    assert forall|i: int| 0 <= i < items(s, sep).len() implies is_item(
        #[trigger] items(s, sep)[i],
        sep,
    ) by {
        let item = pieces.filter(keep)[i];
        pieces.lemma_filter_pred(keep, i);
        lemma_filter_is_among(pieces, keep, i);
        let j = choose|j: int| 0 <= j < pieces.len() && pieces[j] == item;
        let piece = split_on(s, sep)[j];
        trimming_twice_changes_nothing(piece);
        lemma_trimmed_is_part(piece);
        assert(!piece.contains(sep));
        if item.contains(sep) {
            let k = choose|k: int| 0 <= k < item.len() && item[k] == sep;
            assert(piece.contains(item[k]));
        }
    }
}

/// A blank text has no items.
pub proof fn lemma_blank_items(s: Seq<char>, sep: char)
    requires
        trimmed(s).len() == 0,
        !is_white_space(sep),
    ensures
        items(s, sep).len() == 0,
{
    lemma_blank_is_white(s);
    lemma_index_of_char(s, sep, s.len() as int);
    reveal_with_fuel(Seq::filter, 3);
    let keep = |item: Seq<char>| item.len() > 0;
    let pieces = split_on(s, sep).map_values(|piece: Seq<char>| trimmed(piece));
    assert(pieces =~= seq![trimmed(s)]);
    assert(pieces.drop_last() =~= Seq::<Seq<char>>::empty());
    assert(pieces.filter(keep).len() == 0);
}

proof fn lemma_blank_is_white(s: Seq<char>)
    requires
        trimmed(s).len() == 0,
    ensures
        forall|i: int| 0 <= i < s.len() ==> is_white_space(#[trigger] s[i]),
    decreases s.len(),
{
    if s.len() > 0 {
        if is_white_space(s[0]) {
            let rest = s.skip(1);
            lemma_blank_is_white(rest);
            assert forall|i: int| 0 <= i < s.len() implies is_white_space(#[trigger] s[i]) by {
                if i > 0 {
                    assert(s[i] == rest[i - 1]);
                }
            }
        } else {
            lemma_white_end(s);
        }
    }
}

proof fn lemma_white_end(s: Seq<char>)
    requires
        s.len() > 0,
        !is_white_space(s[0]),
    ensures
        trimmed_end(s).len() > 0,
    decreases s.len(),
{
    if is_white_space(s.last()) {
        lemma_white_end(s.drop_last());
    }
}

/// Items joined by the separator and a space are the items of the text they
/// make.
pub proof fn items_come_back_from_the_joined_text(list: Seq<Seq<char>>)
    requires
        forall|i: int| 0 <= i < list.len() ==> is_item(#[trigger] list[i], ','),
    ensures
        items(joined(list, ", "@), ',') == list,
{
    lemma_joined_items(Seq::empty(), list);
    assert(Seq::<char>::empty() + joined(list, ", "@) =~= joined(list, ", "@));
}

proof fn lemma_joined_items(lead: Seq<char>, list: Seq<Seq<char>>)
    requires
        lead == Seq::<char>::empty() || lead == seq![' '],
        forall|i: int| 0 <= i < list.len() ==> is_item(#[trigger] list[i], ','),
    ensures
        items(lead + joined(list, ", "@), ',') == list,
    decreases list.len(),
{
    reveal_strlit(", ");
    reveal_with_fuel(Seq::filter, 3);
    let keep = |item: Seq<char>| item.len() > 0;
    let clean = |piece: Seq<char>| trimmed(piece);
    let whole = lead + joined(list, ", "@);
    if list.len() == 0 {
        assert(whole =~= lead);
        lemma_index_of_char(whole, ',', whole.len() as int);
        assert(split_on(whole, ',') == seq![whole]);
        lemma_trimmed_lead(lead, Seq::empty());
        assert(trimmed(Seq::<char>::empty()) == Seq::<char>::empty());
        assert(lead + Seq::<char>::empty() =~= lead);
        assert(seq![whole].map_values(clean) =~= seq![Seq::<char>::empty()]);
        assert(seq![Seq::<char>::empty()].drop_last() =~= Seq::<Seq<char>>::empty());
        assert(seq![Seq::<char>::empty()].filter(keep) =~= list);
        assert(items(whole, ',') =~= list);
    } else {
        let first = list[0];
        assert(is_item(first, ','));
        lemma_trimmed_lead(lead, first);
        let head = lead + first;
        assert forall|i: int| 0 <= i < head.len() implies head[i] != ',' by {
            if i >= lead.len() {
                assert(first.contains(first[i - lead.len()]));
            }
        }
        if list.len() == 1 {
            lemma_index_of_char(head, ',', head.len() as int);
            assert(split_on(whole, ',') == seq![head]);
            assert(seq![head].map_values(clean) =~= seq![first]);
            assert(seq![first].drop_last() =~= Seq::<Seq<char>>::empty());
            assert(items(whole, ',') =~= list);
        } else {
            let rest = list.skip(1);
            assert forall|i: int| 0 <= i < rest.len() implies is_item(#[trigger] rest[i], ',') by {
                assert(is_item(list[i + 1], ','));
            }
            lemma_joined_items(seq![' '], rest);
            let tail = seq![' '] + joined(rest, ", "@);
            assert(whole =~= head + seq![','] + tail);
            lemma_index_of_char(whole, ',', head.len() as int);
            assert(whole.take(head.len() as int) =~= head);
            assert(whole.skip(head.len() as int + 1) =~= tail);
            let a = seq![head].map_values(clean);
            let b = split_on(tail, ',').map_values(clean);
            assert((seq![head] + split_on(tail, ',')).map_values(clean) =~= a + b);
            Seq::filter_distributes_over_add(a, b, keep);
            assert(a =~= seq![first]);
            assert(seq![first].drop_last() =~= Seq::<Seq<char>>::empty());
            assert(a.filter(keep) =~= seq![first]);
            assert(items(whole, ',') =~= seq![first] + rest);
            assert(seq![first] + rest =~= list);
        }
    }
}

proof fn lemma_trimmed_lead(lead: Seq<char>, s: Seq<char>)
    requires
        lead == Seq::<char>::empty() || lead == seq![' '],
    ensures
        trimmed(lead + s) == trimmed(s),
{
    if lead.len() == 0 {
        assert(lead + s =~= s);
    } else {
        assert((lead + s).skip(1) =~= s);
    }
}

proof fn lemma_trimmed_is_part(s: Seq<char>)
    ensures
        forall|i: int| 0 <= i < trimmed(s).len() ==> s.contains(#[trigger] trimmed(s)[i]),
{
    lemma_trimmed_start_is_part(s);
    lemma_trimmed_end_is_part(trimmed_start(s));
    assert forall|i: int| 0 <= i < trimmed(s).len() implies s.contains(#[trigger] trimmed(s)[i]) by {
        let t = trimmed_start(s);
        assert(t.contains(trimmed(s)[i]));
        let j = choose|j: int| 0 <= j < t.len() && t[j] == trimmed(s)[i];
        assert(s.contains(t[j]));
    }
}

proof fn lemma_trimmed_start_is_part(s: Seq<char>)
    ensures
        forall|i: int| 0 <= i < trimmed_start(s).len() ==> s.contains(#[trigger] trimmed_start(s)[i]),
    decreases s.len(),
{
    if s.len() > 0 && is_white_space(s[0]) {
        let rest = s.skip(1);
        lemma_trimmed_start_is_part(rest);
        assert forall|i: int| 0 <= i < trimmed_start(s).len() implies s.contains(
            #[trigger] trimmed_start(s)[i],
        ) by {
            let c = trimmed_start(rest)[i];
            let j = choose|j: int| 0 <= j < rest.len() && rest[j] == c;
            assert(s[j + 1] == c);
        }
    }
}

proof fn lemma_trimmed_end_is_part(s: Seq<char>)
    ensures
        forall|i: int| 0 <= i < trimmed_end(s).len() ==> s.contains(#[trigger] trimmed_end(s)[i]),
    decreases s.len(),
{
    if s.len() > 0 && is_white_space(s.last()) {
        let rest = s.drop_last();
        lemma_trimmed_end_is_part(rest);
        assert forall|i: int| 0 <= i < trimmed_end(s).len() implies s.contains(
            #[trigger] trimmed_end(s)[i],
        ) by {
            let c = trimmed_end(rest)[i];
            let j = choose|j: int| 0 <= j < rest.len() && rest[j] == c;
            assert(s[j] == c);
        }
    }
}

proof fn lemma_pieces_hold_no_separator(s: Seq<char>, sep: char)
    ensures
        forall|i: int| 0 <= i < split_on(s, sep).len() ==> !(#[trigger] split_on(s, sep)[i]).contains(sep),
    decreases s.len(),
{
    let k = index_of_char(s, sep);
    lemma_index_of_char_is_first(s, sep);
    let head = s.take(k);
    assert(!head.contains(sep));
    if k < s.len() {
        lemma_pieces_hold_no_separator(s.skip(k + 1), sep);
        assert forall|i: int| 0 <= i < split_on(s, sep).len() implies !(#[trigger] split_on(
            s,
            sep,
        )[i]).contains(sep) by {
            if i > 0 {
                assert(split_on(s, sep)[i] == split_on(s.skip(k + 1), sep)[i - 1]);
            }
        }
    } else {
        assert(head =~= s);
    }
}

proof fn lemma_index_of_char_is_first(s: Seq<char>, c: char)
    ensures
        0 <= index_of_char(s, c) <= s.len(),
        forall|i: int| 0 <= i < index_of_char(s, c) ==> s[i] != c,
    decreases s.len(),
{
    if s.len() > 0 && s[0] != c {
        lemma_index_of_char_is_first(s.skip(1), c);
        assert forall|i: int| 0 <= i < index_of_char(s, c) implies s[i] != c by {
            if i > 0 {
                assert(s.skip(1)[i - 1] == s[i]);
            }
        }
    }
}

proof fn lemma_filter_is_among<A>(s: Seq<A>, keep: spec_fn(A) -> bool, i: int)
    requires
        0 <= i < s.filter(keep).len(),
    ensures
        exists|j: int| 0 <= j < s.len() && s[j] == s.filter(keep)[i],
    decreases s.len(),
{
    reveal(Seq::filter);
    if s.len() > 0 {
        let rest = s.drop_last();
        if i < rest.filter(keep).len() {
            lemma_filter_is_among(rest, keep, i);
            let j = choose|j: int| 0 <= j < rest.len() && rest[j] == rest.filter(keep)[i];
            assert(s[j] == s.filter(keep)[i]);
        } else {
            assert(s[s.len() - 1] == s.filter(keep)[i]);
        }
    }
}

/// The lower-case form of `s`, as `str::to_lowercase` gives it.
pub uninterp spec fn lowercase(s: Seq<char>) -> Seq<char>;

/// `str::to_lowercase`: the lower-case form depends on the text alone, and is
/// what [`lowercase`] names. Which characters it holds is not stated.
#[verifier::external_body]
pub(crate) fn to_lowercase(s: &str) -> (r: String)
    ensures
        r@ == lowercase(s@),
{
    s.to_lowercase()
}

/// The upper-case form of one character, as `char::to_uppercase` gives it.
pub uninterp spec fn uppercase(c: char) -> Seq<char>;

/// `char::to_uppercase`: the upper-case form depends on the character alone,
/// and is what [`uppercase`] names. Which characters it holds is not stated.
#[verifier::external_body]
pub(crate) fn to_uppercase(c: char) -> (r: String)
    ensures
        r@ == uppercase(c),
{
    c.to_uppercase().to_string()
}

/// The characters that count as white space: the tab and the four controls
/// after it, the space, the next line and the no-break space, the Ogham
/// space, the spaces of the general punctuation, the line and paragraph
/// separators, the narrow and the mathematical space, and the ideographic
/// one.
pub proof fn white_space_is_the_blank_characters(c: char)
    ensures
        is_white_space(c) <==> {
            ||| '\t' <= c <= '\r'
            ||| c == ' '
            ||| c == '\u{85}'
            ||| c == '\u{a0}'
            ||| c == '\u{1680}'
            ||| '\u{2000}' <= c <= '\u{200a}'
            ||| c == '\u{2028}'
            ||| c == '\u{2029}'
            ||| c == '\u{202f}'
            ||| c == '\u{205f}'
            ||| c == '\u{3000}'
        },
{
}

/// What is left when the start is trimmed is the text from its first character
/// that is no white space.
pub proof fn lemma_trimmed_start_cut(s: Seq<char>)
    ensures
        exists|a: int|
            {
                &&& 0 <= a <= s.len()
                &&& trimmed_start(s) == #[trigger] s.skip(a)
                &&& forall|i: int| 0 <= i < a ==> is_white_space(#[trigger] s[i])
                &&& a < s.len() ==> !is_white_space(s[a])
            },
    decreases s.len(),
{
    if s.len() > 0 && is_white_space(s[0]) {
        let rest = s.skip(1);
        lemma_trimmed_start_cut(rest);
        let a = choose|a: int|
            {
                &&& 0 <= a <= rest.len()
                &&& trimmed_start(rest) == #[trigger] rest.skip(a)
                &&& forall|i: int| 0 <= i < a ==> is_white_space(#[trigger] rest[i])
                &&& a < rest.len() ==> !is_white_space(rest[a])
            };
        assert(rest.skip(a) =~= s.skip(a + 1));
        assert forall|i: int| 0 <= i < a + 1 implies is_white_space(#[trigger] s[i]) by {
            if i > 0 {
                assert(s[i] == rest[i - 1]);
            }
        }
    } else {
        assert(s.skip(0) =~= s);
    }
}

proof fn lemma_trimmed_end_cut(s: Seq<char>)
    ensures
        exists|b: int|
            {
                &&& 0 <= b <= s.len()
                &&& trimmed_end(s) == #[trigger] s.take(b)
                &&& forall|i: int| b <= i < s.len() ==> is_white_space(#[trigger] s[i])
                &&& b > 0 ==> !is_white_space(s[b - 1])
            },
    decreases s.len(),
{
    if s.len() > 0 && is_white_space(s.last()) {
        let rest = s.drop_last();
        lemma_trimmed_end_cut(rest);
        let b = choose|b: int|
            {
                &&& 0 <= b <= rest.len()
                &&& trimmed_end(rest) == #[trigger] rest.take(b)
                &&& forall|i: int| b <= i < rest.len() ==> is_white_space(#[trigger] rest[i])
                &&& b > 0 ==> !is_white_space(rest[b - 1])
            };
        assert(rest.take(b) =~= s.take(b));
        assert forall|i: int| b <= i < s.len() implies is_white_space(#[trigger] s[i]) by {
            if i < rest.len() {
                assert(s[i] == rest[i]);
            }
        }
    } else {
        assert(s.take(s.len() as int) =~= s);
    }
}

/// Trimming cuts white space off the two ends and nothing else: what is left
/// is a run of the text with only white space on either side of it, that
/// neither starts nor ends with white space.
pub proof fn trimming_cuts_only_white_space_off_the_ends(s: Seq<char>)
    ensures
        exists|a: int, b: int|
            {
                &&& 0 <= a <= b <= s.len()
                &&& trimmed(s) == #[trigger] s.subrange(a, b)
                &&& forall|i: int| 0 <= i < a ==> is_white_space(#[trigger] s[i])
                &&& forall|i: int| b <= i < s.len() ==> is_white_space(#[trigger] s[i])
                &&& a < b ==> !is_white_space(s[a]) && !is_white_space(s[b - 1])
            },
{
    lemma_trimmed_start_cut(s);
    let a = choose|a: int|
        {
            &&& 0 <= a <= s.len()
            &&& trimmed_start(s) == #[trigger] s.skip(a)
            &&& forall|i: int| 0 <= i < a ==> is_white_space(#[trigger] s[i])
            &&& a < s.len() ==> !is_white_space(s[a])
        };
    let t = trimmed_start(s);
    lemma_trimmed_end_cut(t);
    let b = choose|b: int|
        {
            &&& 0 <= b <= t.len()
            &&& trimmed_end(t) == #[trigger] t.take(b)
            &&& forall|i: int| b <= i < t.len() ==> is_white_space(#[trigger] t[i])
            &&& b > 0 ==> !is_white_space(t[b - 1])
        };
    assert(t.take(b) =~= s.subrange(a, a + b));
    assert forall|i: int| a + b <= i < s.len() implies is_white_space(#[trigger] s[i]) by {
        assert(s[i] == t[i - a]);
    }
    if b > 0 {
        assert(t[b - 1] == s[a + b - 1]);
    }
}

/// A text is blank exactly where each of its characters is white space.
pub proof fn a_blank_text_is_all_white_space(s: Seq<char>)
    ensures
        trimmed(s).len() == 0 <==> forall|i: int|
            0 <= i < s.len() ==> is_white_space(#[trigger] s[i]),
{
    if trimmed(s).len() == 0 {
        lemma_blank_is_white(s);
    } else {
        lemma_trimmed_start_cut(s);
        lemma_trimmed_end_cut(trimmed_start(s));
        trimming_cuts_only_white_space_off_the_ends(s);
    }
}

/// A text with no white space at its ends is left as it is.
pub proof fn a_trimmed_text_is_left_as_it_is(s: Seq<char>)
    requires
        s.len() > 0,
        !is_white_space(s[0]),
        !is_white_space(s[s.len() - 1]),
    ensures
        trimmed(s) == s,
{
}

/// A number is read from one or more digits, with a plus sign before them or
/// not, and from nothing else.
pub proof fn only_digits_read_as_a_number(s: Seq<char>)
    ensures
        parsed_number(s) is Some <==> {
            let from: int = if s.len() > 0 && s[0] == '+' {
                1
            } else {
                0
            };
            s.len() > from && forall|i: int| from <= i < s.len() ==> '0' <= (#[trigger] s[i]) <= '9'
        },
        parsed_number(s) matches Some(n) ==> parsed_number(seq!['+'] + s) == (if s[0] == '+' {
            None::<nat>
        } else {
            Some(n)
        }),
{
    let digits = unsigned_digits(s);
    let from: int = if s.len() > 0 && s[0] == '+' {
        1
    } else {
        0
    };
    assert forall|i: int| 0 <= i < digits.len() implies digits[i] == s[i + from] by {}
    if forall|i: int| 0 <= i < digits.len() ==> is_digit(#[trigger] digits[i]) {
        assert forall|i: int| from <= i < s.len() implies '0' <= (#[trigger] s[i]) <= '9' by {
            assert(is_digit(digits[i - from]));
        }
    } else {
        let i = choose|i: int| 0 <= i < digits.len() && !is_digit(#[trigger] digits[i]);
        assert(!('0' <= s[i + from] <= '9'));
    }
    let signed = seq!['+'] + s;
    assert(unsigned_digits(signed) =~= s);
    if s.len() > 0 && s[0] == '+' {
        assert(!is_digit(s[0]));
    }
}

/// A digit more makes a number ten times what it was, and the digit; one
/// digit alone is worth itself.
pub proof fn each_digit_is_worth_ten_of_the_next(s: Seq<char>, c: char)
    requires
        '0' <= c <= '9',
    ensures
        parsed_number(seq![c]) == Some((c as int - '0' as int) as nat),
        parsed_number(s) matches Some(n) ==> parsed_number(s.push(c)) == Some(
            (10 * n + (c as int - '0' as int)) as nat,
        ),
{
    let one = seq![c];
    assert(unsigned_digits(one) == one);
    assert(one.drop_last() =~= Seq::<char>::empty());
    assert(digits_value(one.drop_last()) == 0);
    assert(is_digit(one[0]));
    if parsed_number(s) is Some {
        let digits = unsigned_digits(s);
        let more = unsigned_digits(s.push(c));
        assert(more =~= digits.push(c));
        assert(more.drop_last() =~= digits);
        assert forall|i: int| 0 <= i < more.len() implies is_digit(#[trigger] more[i]) by {
            if i < digits.len() {
                assert(more[i] == digits[i]);
            }
        }
    }
}

/// A number over the largest allowed is not read; any other is read whole.
pub proof fn a_number_over_the_limit_is_not_read(s: Seq<char>, max: nat)
    ensures
        parsed_at_most(s, max) matches Some(n) ==> n <= max && parsed_number(s) == Some(n),
        parsed_number(s) matches Some(n) ==> (n <= max ==> parsed_at_most(s, max) == Some(n)),
        parsed_at_most(s, max) is None ==> (parsed_number(s) matches Some(n) ==> n > max),
{
}

/// A character is found at the first place that holds it, or at the end where
/// none does.
pub proof fn a_character_is_found_at_its_first_place(s: Seq<char>, c: char)
    ensures
        0 <= index_of_char(s, c) <= s.len(),
        forall|i: int| 0 <= i < index_of_char(s, c) ==> s[i] != c,
        index_of_char(s, c) < s.len() ==> s[index_of_char(s, c)] == c,
    decreases s.len(),
{
    lemma_index_of_char_is_first(s, c);
    if s.len() > 0 && s[0] != c {
        a_character_is_found_at_its_first_place(s.skip(1), c);
    }
}

/// The pieces of a text hold no separator, and joined by it again they make
/// the text.
pub proof fn the_pieces_of_a_text_make_it_again(s: Seq<char>, sep: char)
    ensures
        split_on(s, sep).len() > 0,
        joined(split_on(s, sep), seq![sep]) == s,
        forall|i: int|
            0 <= i < split_on(s, sep).len() ==> !(#[trigger] split_on(s, sep)[i]).contains(sep),
    decreases s.len(),
{
    lemma_pieces_hold_no_separator(s, sep);
    let k = index_of_char(s, sep);
    a_character_is_found_at_its_first_place(s, sep);
    if k < s.len() {
        let rest = s.skip(k + 1);
        the_pieces_of_a_text_make_it_again(rest, sep);
        let pieces = split_on(s, sep);
        assert(pieces.skip(1) =~= split_on(rest, sep));
        assert(s.take(k) + seq![sep] + rest =~= s);
    }
}

/// Joining puts the separator between two pieces and nowhere else: a piece
/// more adds the separator and the piece.
pub proof fn a_piece_more_is_joined_by_the_separator(
    pieces: Seq<Seq<char>>,
    piece: Seq<char>,
    sep: Seq<char>,
)
    ensures
        joined(Seq::empty(), sep) == Seq::<char>::empty(),
        joined(seq![piece], sep) == piece,
        pieces.len() > 0 ==> joined(pieces.push(piece), sep) == joined(pieces, sep) + sep + piece,
    decreases pieces.len(),
{
    if pieces.len() == 1 {
        assert(pieces.push(piece).skip(1) =~= seq![piece]);
        assert(joined(seq![piece], sep) == piece);
        assert(joined(pieces.push(piece), sep) =~= pieces[0] + sep + piece);
    } else if pieces.len() > 1 {
        let rest = pieces.skip(1);
        a_piece_more_is_joined_by_the_separator(rest, piece, sep);
        assert(pieces.push(piece).skip(1) =~= rest.push(piece));
        assert(joined(pieces.push(piece), sep) =~= joined(pieces, sep) + sep + piece);
    }
}

/// The pieces of two texts with a separator between them are those of the one
/// and then those of the other; a text without the separator is one piece.
pub proof fn a_separator_parts_the_pieces(s: Seq<char>, t: Seq<char>, sep: char)
    ensures
        split_on(s + seq![sep] + t, sep) == split_on(s, sep) + split_on(t, sep),
        !s.contains(sep) ==> split_on(s, sep) == seq![s],
    decreases s.len(),
{
    if !s.contains(sep) {
        assert forall|i: int| 0 <= i < s.len() implies s[i] != sep by {
            assert(s.contains(s[i]));
        }
        lemma_index_of_char(s, sep, s.len() as int);
    }
    let whole = s + seq![sep] + t;
    let k = index_of_char(s, sep);
    a_character_is_found_at_its_first_place(s, sep);
    lemma_index_of_char(whole, sep, k);
    if k < s.len() {
        let rest = s.skip(k + 1);
        a_separator_parts_the_pieces(rest, t, sep);
        assert(whole.take(k) =~= s.take(k));
        assert(whole.skip(k + 1) =~= rest + seq![sep] + t);
        assert(split_on(whole, sep) =~= split_on(s, sep) + split_on(t, sep));
    } else {
        assert(whole.take(k) =~= s);
        assert(whole.skip(k + 1) =~= t);
        assert(split_on(whole, sep) =~= split_on(s, sep) + split_on(t, sep));
    }
}

/// The items of two texts with a separator between them are those of the one
/// and then those of the other; a text without the separator is one item, its
/// trimmed self, or none where it is blank.
pub proof fn a_separator_parts_the_items(s: Seq<char>, t: Seq<char>, sep: char)
    ensures
        items(s + seq![sep] + t, sep) == items(s, sep) + items(t, sep),
        !s.contains(sep) ==> items(s, sep) == (if trimmed(s).len() > 0 {
            seq![trimmed(s)]
        } else {
            Seq::empty()
        }),
{
    let clean = |piece: Seq<char>| trimmed(piece);
    let keep = |item: Seq<char>| item.len() > 0;
    a_separator_parts_the_pieces(s, t, sep);
    let (a, b) = (split_on(s, sep), split_on(t, sep));
    assert((a + b).map_values(clean) =~= a.map_values(clean) + b.map_values(clean));
    Seq::filter_distributes_over_add(a.map_values(clean), b.map_values(clean), keep);
    if !s.contains(sep) {
        assert forall|i: int| 0 <= i < s.len() implies s[i] != sep by {
            assert(s.contains(s[i]));
        }
        lemma_index_of_char(s, sep, s.len() as int);
        reveal_with_fuel(Seq::filter, 3);
        let one = seq![s].map_values(clean);
        assert(one =~= seq![trimmed(s)]);
        assert(one.drop_last() =~= Seq::<Seq<char>>::empty());
        assert(items(s, sep) =~= (if trimmed(s).len() > 0 {
            seq![trimmed(s)]
        } else {
            Seq::empty()
        }));
    }
}

/// A text reads as another at a place where each character of the other
/// stands in turn from there, and what follows a prefix is the rest of the
/// text.
pub proof fn a_text_after_its_prefix_is_the_rest(s: Seq<char>, at: int, prefix: Seq<char>)
    requires
        0 <= at,
    ensures
        reads_at(s, at, prefix) <==> at + prefix.len() <= s.len() && forall|i: int|
            0 <= i < prefix.len() ==> s[at + i] == #[trigger] prefix[i],
        after_prefix(s, prefix) matches Some(rest) ==> s == prefix + rest,
        after_prefix(s, prefix) is None ==> forall|rest: Seq<char>| s != #[trigger] (prefix + rest),
{
    if reads_at(s, at, prefix) {
        assert forall|i: int| 0 <= i < prefix.len() implies s[at + i] == #[trigger] prefix[i] by {
            assert(s.subrange(at, at + prefix.len())[i] == prefix[i]);
        }
    } else if at + prefix.len() <= s.len() && forall|i: int|
        0 <= i < prefix.len() ==> s[at + i] == #[trigger] prefix[i] {
        assert(s.subrange(at, at + prefix.len()) =~= prefix);
    }
    if let Some(rest) = after_prefix(s, prefix) {
        assert(s =~= s.subrange(0, prefix.len() as int) + rest);
    } else {
        assert forall|rest: Seq<char>| s != #[trigger] (prefix + rest) by {
            if s == prefix + rest {
                assert(s.subrange(0, prefix.len() as int) =~= prefix);
            }
        }
    }
}

/// One text comes before another where they agree up to some place at which
/// the first ends and the second does not, or has the smaller character.
pub proof fn text_order_is_decided_at_the_first_difference(a: Seq<char>, b: Seq<char>, k: int)
    requires
        0 <= k <= a.len(),
        k <= b.len(),
        a.take(k) == b.take(k),
        k < a.len() && k < b.len() ==> a[k] != b[k],
    ensures
        text_before(a, b) <==> k < b.len() && (k == a.len() || (a[k] as int) < (b[k] as int)),
    decreases k,
{
    if k > 0 {
        let x = a.skip(1);
        let y = b.skip(1);
        assert(a[0] == a.take(k)[0] && b[0] == b.take(k)[0]);
        assert forall|i: int| 0 <= i < k - 1 implies x[i] == y[i] by {
            assert(x[i] == a.take(k)[i + 1]);
            assert(y[i] == b.take(k)[i + 1]);
        }
        assert(x.take(k - 1) =~= y.take(k - 1));
        text_order_is_decided_at_the_first_difference(x, y, k - 1);
    }
}

/// Letters match whatever their case, and every other character only itself.
pub proof fn letters_match_whatever_their_case(a: char, b: char)
    ensures
        same_letter(a, a),
        same_letter(a, b) <==> same_letter(b, a),
        'a' <= a <= 'z' ==> (same_letter(a, b) <==> b == a || b as int == a as int - 'a' as int
            + 'A' as int),
        'A' <= a <= 'Z' ==> (same_letter(a, b) <==> b == a || b as int == a as int - 'A' as int
            + 'a' as int),
        !('a' <= a <= 'z') && !('A' <= a <= 'Z') ==> (same_letter(a, b) <==> a == b),
{
}

/// A number's digits are digits, and the first is a zero only where it is the
/// only one.
pub proof fn a_number_is_written_without_leading_zeros(n: nat)
    ensures
        forall|i: int| 0 <= i < decimal(n).len() ==> '0' <= (#[trigger] decimal(n)[i]) <= '9',
        decimal(n).len() > 0,
        decimal(n)[0] == '0' ==> n == 0 && decimal(n).len() == 1,
    decreases n,
{
    lemma_decimal_digits(n);
    assert forall|i: int| 0 <= i < decimal(n).len() implies '0' <= (
    #[trigger] decimal(n)[i]) <= '9' by {
        assert(is_digit(decimal(n)[i]));
    }
    if n >= 10 {
        a_number_is_written_without_leading_zeros(n / 10);
        assert(decimal(n)[0] == decimal(n / 10)[0]);
    }
}

/// Texts are told one by one, in order.
pub proof fn texts_are_told_in_order(v: Seq<String>)
    ensures
        texts(v).len() == v.len(),
        forall|i: int| 0 <= i < v.len() ==> #[trigger] texts(v)[i] == v[i]@,
{
}

} // verus!
