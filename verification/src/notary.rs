//! A Ghost Key's notary attestation, as something a person can read.
//!
//! Three shapes exist: a flat JSON object with an amount and a creation date,
//! the older `donation_amount:100`, and a plain string. Anything unrecognised
//! is passed through unchanged: inventing a tier for a certificate that cannot
//! be read would misrepresent a seller's standing.

use crate::text;
use vstd::prelude::*;

verus! {

/// Where a reader of a JSON text stands.
pub struct JsonScan {
    /// How many objects and arrays are open.
    pub depth: int,
    /// Inside a string.
    pub in_string: bool,
    /// Behind a backslash inside a string.
    pub escaped: bool,
}

impl JsonScan {
    /// The start of a text.
    pub open spec fn start() -> JsonScan {
        JsonScan { depth: 0, in_string: false, escaped: false }
    }

    /// Behind one more character.
    pub open spec fn step(self, c: char) -> JsonScan {
        if self.in_string {
            if self.escaped {
                JsonScan { escaped: false, ..self }
            } else if c == '\\' {
                JsonScan { escaped: true, ..self }
            } else if c == '"' {
                JsonScan { in_string: false, ..self }
            } else {
                self
            }
        } else if c == '{' || c == '[' {
            JsonScan { depth: self.depth + 1, ..self }
        } else if c == '}' || c == ']' {
            JsonScan { depth: self.depth - 1, ..self }
        } else if c == '"' {
            JsonScan { in_string: true, ..self }
        } else {
            self
        }
    }
}

/// Where a reader stands behind the first `i` characters of `s`.
pub open spec fn scanned(s: Seq<char>, i: int) -> JsonScan
    decreases i,
{
    if i <= 0 {
        JsonScan::start()
    } else {
        scanned(s, i - 1).step(s[i - 1])
    }
}

/// A key as it stands in the text: between double quotes.
pub open spec fn quoted(key: Seq<char>) -> Seq<char> {
    "\""@ + key + "\""@
}

/// Whether the key of a top-level field stands at `i`: outside every string,
/// inside one object, and followed by a colon.
pub open spec fn field_at(s: Seq<char>, key: Seq<char>, i: int) -> bool {
    &&& 0 <= i < s.len()
    &&& s[i] == '"'
    &&& !scanned(s, i).in_string
    &&& scanned(s, i).depth == 1
    &&& text::reads_at(s, i, quoted(key))
    &&& text::trimmed_start(s.skip(i + quoted(key).len())).len() > 0
    &&& text::trimmed_start(s.skip(i + quoted(key).len()))[0] == ':'
}

/// How many digits `s` starts with.
pub open spec fn leading_digits(s: Seq<char>) -> int
    decreases s.len(),
{
    if s.len() == 0 || !text::is_digit(s[0]) {
        0
    } else {
        1 + leading_digits(s.skip(1))
    }
}

/// The value at the start of `s`: what stands between the quotes of a string,
/// up to the next quote, or a run of digits that something follows.
pub open spec fn json_value(s: Seq<char>) -> Option<Seq<char>> {
    if s.len() > 0 && s[0] == '"' {
        let rest = s.skip(1);
        let end = text::index_of_char(rest, '"');
        if end < rest.len() {
            Some(rest.take(end))
        } else {
            None
        }
    } else {
        let end = leading_digits(s);
        if end == s.len() || end == 0 {
            None
        } else {
            Some(s.take(end))
        }
    }
}

/// The value of the field whose key stands at `i`.
pub open spec fn value_of_field(s: Seq<char>, key: Seq<char>, i: int) -> Option<Seq<char>> {
    json_value(
        text::trimmed_start(text::trimmed_start(s.skip(i + quoted(key).len())).skip(1)),
    )
}

/// The value of the first top-level field named `key`, looking from `from`
/// on.
pub open spec fn json_field(s: Seq<char>, key: Seq<char>, from: int) -> Option<Seq<char>>
    decreases s.len() - from,
{
    if from >= s.len() {
        None
    } else if field_at(s, key, from) {
        value_of_field(s, key, from)
    } else {
        json_field(s, key, from + 1)
    }
}

/// The value at the start of a text.
fn read_value(s: &str) -> (r: Option<String>)
    ensures
        (match r {
            Some(v) => json_value(s@) == Some(v@),
            None => json_value(s@) is None,
        }),
{
    let n: usize = s.unicode_len();
    if n > 0 && s.get_char(0) == '"' {
        let end = text::find_char(s, 1, '"');
        let ghost rest = s@.skip(1);
        if end < n {
            assert(rest.take(end - 1) =~= s@.subrange(1, end as int));
            Some(s.substring_char(1, end).to_string())
        } else {
            None
        }
    } else {
        let mut end: usize = 0;
        assert(s@.skip(0) =~= s@);
        while end < n && text::ascii_digit(s.get_char(end))
            invariant
                end <= n,
                n == s@.len(),
                leading_digits(s@) == end + leading_digits(s@.skip(end as int)),
            decreases n - end,
        {
            assert(s@.skip(end as int)[0] == s@[end as int]);
            assert(s@.skip(end as int).skip(1) =~= s@.skip(end + 1));
            end = end + 1;
        }
        if end < n {
            assert(s@.skip(end as int)[0] == s@[end as int]);
        }
        assert(leading_digits(s@) == end);
        if end == n || end == 0 {
            None
        } else {
            assert(s@.take(end as int) =~= s@.subrange(0, end as int));
            Some(s.substring_char(0, end).to_string())
        }
    }
}

/// A deliberately small reader for the one flat object an attestation holds.
/// It answers `None` on anything surprising, and matches a key only at the
/// top level of the object.
pub fn extract_json_field(info: &str, key: &str) -> (r: Option<String>)
    ensures
        (match r {
            Some(v) => json_field(info@, key@, 0) == Some(v@),
            None => json_field(info@, key@, 0) is None,
        }),
{
    let pat = text::join3("\"", key, "\"");
    let n: usize = info.unicode_len();
    let m: usize = pat.as_str().unicode_len();
    let mut depth: i128 = 0;
    let mut in_string = false;
    let mut escaped = false;
    let mut i: usize = 0;
    while i < n
        invariant
            i <= n,
            n == info@.len(),
            pat@ == quoted(key@),
            m == pat@.len(),
            json_field(info@, key@, 0) == json_field(info@, key@, i as int),
            scanned(info@, i as int) == (JsonScan { depth: depth as int, in_string, escaped }),
            -(i as int) <= depth <= i,
        decreases n - i,
    {
        let c = info.get_char(i);
        let ghost here = scanned(info@, i as int);
        assert(scanned(info@, i + 1) == here.step(c));
        if in_string {
            assert(!field_at(info@, key@, i as int));
            if escaped {
                escaped = false;
            } else if c == '\\' {
                escaped = true;
            } else if c == '"' {
                in_string = false;
            }
        } else if c == '{' || c == '[' {
            assert(!field_at(info@, key@, i as int));
            depth = depth + 1;
        } else if c == '}' || c == ']' {
            assert(!field_at(info@, key@, i as int));
            depth = depth - 1;
        } else if c == '"' {
            if depth == 1 && text::starts_at(info, i, &pat) {
                assert(info@.skip(i + m) =~= info@.subrange(i + m, n as int));
                let after = text::trim_start(info.substring_char(i + m, n));
                let k: usize = after.unicode_len();
                if k > 0 && after.get_char(0) == ':' {
                    assert(field_at(info@, key@, i as int));
                    assert(after@.skip(1) =~= after@.subrange(1, k as int));
                    return read_value(text::trim_start(after.substring_char(1, k)));
                }
            }
            assert(!field_at(info@, key@, i as int));
            in_string = true;
        } else {
            assert(!field_at(info@, key@, i as int));
        }
        i = i + 1;
    }
    None
}

/// Whether an attestation is written as a JSON object.
pub open spec fn is_object(info: Seq<char>) -> bool {
    info.len() > 0 && info[0] == '{'
}

/// The donation amount an attestation states.
pub open spec fn stated_amount(info: Seq<char>) -> Option<nat> {
    if is_object(info) {
        match json_field(info, "amount"@, 0) {
            Some(v) => text::parsed_at_most(v, u32::MAX as nat),
            None => None,
        }
    } else {
        match text::after_prefix(info, "donation_amount:"@) {
            Some(v) => text::parsed_at_most(text::trimmed(v), u32::MAX as nat),
            None => None,
        }
    }
}

/// The donation amount, from either the JSON or the older encoding.
pub fn extract_amount(info: &str) -> (r: Option<u32>)
    ensures
        (match r {
            Some(v) => stated_amount(info@) == Some(v as nat),
            None => stated_amount(info@) is None,
        }),
{
    if starts_object(info) {
        match extract_json_field(info, "amount") {
            Some(v) => text::parse_u32(&v),
            None => None,
        }
    } else {
        match text::strip_prefix(info, "donation_amount:") {
            Some(v) => text::parse_u32(text::trim(v)),
            None => None,
        }
    }
}

fn starts_object(info: &str) -> (r: bool)
    ensures
        r == is_object(info@),
{
    info.unicode_len() > 0 && info.get_char(0) == '{'
}

/// A month's English name.
pub open spec fn month_name(month: nat) -> Seq<char> {
    if month == 1 {
        "January"@
    } else if month == 2 {
        "February"@
    } else if month == 3 {
        "March"@
    } else if month == 4 {
        "April"@
    } else if month == 5 {
        "May"@
    } else if month == 6 {
        "June"@
    } else if month == 7 {
        "July"@
    } else if month == 8 {
        "August"@
    } else if month == 9 {
        "September"@
    } else if month == 10 {
        "October"@
    } else if month == 11 {
        "November"@
    } else {
        "December"@
    }
}

/// The date `ymd`, written `2024-08-13`, as a person reads it: a year of four
/// bytes, a month of the year, a day up to the 31st, and nothing more.
pub open spec fn readable_date(ymd: Seq<char>) -> Option<Seq<char>> {
    let parts = text::split_on(ymd, '-');
    if parts.len() != 3 || vstd::utf8::encode_utf8(parts[0]).len() != 4 {
        None
    } else {
        match (
            text::parsed_at_most(parts[1], u32::MAX as nat),
            text::parsed_at_most(parts[2], u32::MAX as nat),
        ) {
            (Some(month), Some(day)) => if 1 <= month <= 12 && 1 <= day <= 31 {
                Some(text::decimal(day) + " "@ + month_name(month) + " "@ + parts[0])
            } else {
                None
            },
            _ => None,
        }
    }
}

/// The creation date an attestation states, as a person reads it.
pub open spec fn stated_date(info: Seq<char>) -> Option<Seq<char>> {
    if !is_object(info) {
        None
    } else {
        match json_field(info, "delegate-key-created"@, 0) {
            Some(raw) => readable_date(raw.take(text::index_of_char(raw, ' '))),
            None => None,
        }
    }
}

fn month_text(month: u32) -> (r: &'static str)
    requires
        1 <= month <= 12,
    ensures
        r@ == month_name(month as nat),
{
    match month {
        1 => "January",
        2 => "February",
        3 => "March",
        4 => "April",
        5 => "May",
        6 => "June",
        7 => "July",
        8 => "August",
        9 => "September",
        10 => "October",
        11 => "November",
        _ => "December",
    }
}

/// The creation date, rendered as `13 August 2024`. JSON only; the older
/// encoding carries no date.
pub fn extract_created_date(info: &str) -> (r: Option<String>)
    ensures
        (match r {
            Some(d) => stated_date(info@) == Some(d@),
            None => stated_date(info@) is None,
        }),
{
    if !starts_object(info) {
        return None;
    }
    let raw = match extract_json_field(info, "delegate-key-created") {
        Some(raw) => raw,
        None => {
            return None;
        },
    };
    let end = text::find_char(&raw, 0, ' ');
    assert(raw@.skip(0) =~= raw@);
    assert(raw@.take(end as int) =~= raw@.subrange(0, end as int));
    let ymd = raw.as_str().substring_char(0, end);
    let parts = text::split(ymd, '-');
    let ghost pieces = text::split_on(ymd@, '-');
    assert(parts@.len() == pieces.len());
    if parts.len() != 3 {
        return None;
    }
    assert(parts@[0]@ == pieces[0] && parts@[1]@ == pieces[1] && parts@[2]@ == pieces[2]) by {
        assert(text::texts(parts@)[0] == pieces[0]);
        assert(text::texts(parts@)[1] == pieces[1]);
        assert(text::texts(parts@)[2] == pieces[2]);
    }
    if parts[0].as_str().as_bytes().len() != 4 {
        return None;
    }
    let month = match text::parse_u32(&parts[1]) {
        Some(month) => month,
        None => {
            return None;
        },
    };
    let day = match text::parse_u32(&parts[2]) {
        Some(day) => day,
        None => {
            return None;
        },
    };
    if month < 1 || month > 12 || day < 1 || day > 31 {
        return None;
    }
    let mut date = text::decimal_text(day as u64);
    date.append(" ");
    date.append(month_text(month));
    date.append(" ");
    date.append(&parts[0]);
    Some(date)
}

/// How an attestation reads.
pub open spec fn attestation(info: Seq<char>) -> Seq<char> {
    match (stated_amount(info), stated_date(info)) {
        (Some(a), Some(d)) => "$"@ + text::decimal(a) + " donated, "@ + d,
        (Some(a), None) => "$"@ + text::decimal(a) + " donated"@,
        (None, Some(d)) => "donated "@ + d,
        (None, None) => info,
    }
}

/// Render a Ghost Key's notary attestation as something a person can read.
pub fn describe_notary_info(info: &str) -> (r: String)
    ensures
        r@ == attestation(info@),
{
    let amount = extract_amount(info);
    let date = extract_created_date(info);
    match (amount, date) {
        (Some(a), Some(d)) => {
            let mut r = "$".to_string();
            r.append(&text::decimal_text(a as u64));
            r.append(" donated, ");
            r.append(&d);
            r
        },
        (Some(a), None) => text::join3("$", &text::decimal_text(a as u64), " donated"),
        (None, Some(d)) => {
            let mut r = "donated ".to_string();
            r.append(&d);
            r
        },
        (None, None) => info.to_string(),
    }
}

/// An attestation in no shape known here is shown as it stands.
pub proof fn an_unrecognised_attestation_is_shown_verbatim(info: Seq<char>)
    requires
        !is_object(info),
        text::after_prefix(info, "donation_amount:"@) is None,
    ensures
        attestation(info) == info,
{
}

/// A value that is read belongs to a top-level field of that name, the first
/// there is: never to a nested one, nor to a key inside a string.
pub proof fn a_field_that_is_read_is_the_first_at_the_top_level(
    s: Seq<char>,
    key: Seq<char>,
    from: int,
)
    requires
        0 <= from,
        json_field(s, key, from) is Some,
    ensures
        exists|i: int|
            from <= i && #[trigger] field_at(s, key, i) && json_field(s, key, from)
                == value_of_field(s, key, i) && forall|j: int|
                from <= j < i ==> !#[trigger] field_at(s, key, j),
    decreases s.len() - from,
{
    if field_at(s, key, from) {
        assert(json_field(s, key, from) == value_of_field(s, key, from));
    } else {
        a_field_that_is_read_is_the_first_at_the_top_level(s, key, from + 1);
        let i = choose|i: int|
            from + 1 <= i && #[trigger] field_at(s, key, i) && json_field(s, key, from + 1)
                == value_of_field(s, key, i) && forall|j: int|
                from + 1 <= j < i ==> !#[trigger] field_at(s, key, j);
        assert(field_at(s, key, i));
        assert forall|j: int| from <= j < i implies !#[trigger] field_at(s, key, j) by {
            if j > from {
                assert(from + 1 <= j);
            }
        }
    }
}

/// Brackets count only outside strings: a string starts and ends at a quote,
/// a quote or a backslash after a backslash in it does neither, and outside
/// one each opening bracket goes a level down and each closing one a level
/// up. Any other character changes nothing, but ends an escape.
pub proof fn brackets_count_only_outside_strings(scan: JsonScan, c: char)
    ensures
        ({
            let next = scan.step(c);
            &&& scan.in_string ==> next.depth == scan.depth
            &&& scan.in_string && scan.escaped ==> next.in_string && !next.escaped
            &&& scan.in_string && !scan.escaped ==> (next.escaped <==> c == '\\') && (
            next.in_string <==> c != '"')
            &&& !scan.in_string && (c == '{' || c == '[') ==> next == (JsonScan {
                depth: scan.depth + 1,
                ..scan
            })
            &&& !scan.in_string && (c == '}' || c == ']') ==> next == (JsonScan {
                depth: scan.depth - 1,
                ..scan
            })
            &&& !scan.in_string && c == '"' ==> next == (JsonScan { in_string: true, ..scan })
            &&& !scan.in_string && c != '{' && c != '[' && c != '}' && c != ']' && c != '"'
                ==> next == scan
        }),
        JsonScan::start().depth == 0,
        !JsonScan::start().in_string,
        !JsonScan::start().escaped,
{
}

/// What was scanned before a place is what the characters before it make, one
/// after the other.
pub proof fn a_text_is_scanned_character_by_character(s: Seq<char>, i: int)
    requires
        0 <= i < s.len(),
    ensures
        scanned(s, 0) == JsonScan::start(),
        scanned(s, i + 1) == scanned(s, i).step(s[i]),
{
}

/// A field stands only at the first level, outside any string: its name in
/// quotes, then a colon behind nothing but white space.
pub proof fn a_field_stands_at_the_first_level(s: Seq<char>, key: Seq<char>, i: int)
    requires
        field_at(s, key, i),
    ensures
        scanned(s, i).depth == 1,
        !scanned(s, i).in_string,
        0 <= i,
        i + key.len() + 2 <= s.len(),
        s[i] == '"',
        s[i + 1 + key.len()] == '"',
        forall|j: int| 0 <= j < key.len() ==> s[i + 1 + j] == #[trigger] key[j],
        exists|k: int|
            {
                &&& i + key.len() + 2 <= k < s.len()
                &&& #[trigger] s[k] == ':'
                &&& forall|j: int|
                    i + key.len() + 2 <= j < k ==> text::is_white_space(#[trigger] s[j])
            },
{
    reveal_strlit("\"");
    let name = quoted(key);
    assert(name.len() == key.len() + 2);
    text::a_text_after_its_prefix_is_the_rest(s, i, name);
    assert(s[i + (1 + key.len())] == name[1 + key.len() as int]);
    assert(name[1 + key.len() as int] == '"');
    assert forall|j: int| 0 <= j < key.len() implies s[i + 1 + j] == #[trigger] key[j] by {
        assert(name[1 + j] == key[j]);
        assert(s[i + (1 + j)] == name[1 + j]);
    }
    let rest = s.skip(i + name.len());
    text::lemma_trimmed_start_cut(rest);
    let a = choose|a: int|
        {
            &&& 0 <= a <= rest.len()
            &&& text::trimmed_start(rest) == #[trigger] rest.skip(a)
            &&& forall|j: int| 0 <= j < a ==> text::is_white_space(#[trigger] rest[j])
            &&& a < rest.len() ==> !text::is_white_space(rest[a])
        };
    let k = i + name.len() + a;
    assert(rest.skip(a)[0] == s[k]);
    assert forall|j: int| i + key.len() + 2 <= j < k implies text::is_white_space(
        #[trigger] s[j],
    ) by {
        assert(s[j] == rest[j - (i + name.len())]);
    }
}

proof fn lemma_leading_digits(s: Seq<char>)
    ensures
        0 <= leading_digits(s) <= s.len(),
        forall|i: int| 0 <= i < leading_digits(s) ==> '0' <= (#[trigger] s[i]) <= '9',
        leading_digits(s) < s.len() ==> !('0' <= s[leading_digits(s)] <= '9'),
    decreases s.len(),
{
    if s.len() > 0 && text::is_digit(s[0]) {
        let rest = s.skip(1);
        lemma_leading_digits(rest);
        assert forall|i: int| 0 <= i < leading_digits(s) implies '0' <= (
        #[trigger] s[i]) <= '9' by {
            if i > 0 {
                assert(s[i] == rest[i - 1]);
            }
        }
    }
}

/// A value in quotes is what stands between them, up to the first quote; one
/// without is the digits it starts with, where something follows them. There
/// is no other value.
pub proof fn a_value_is_quoted_text_or_digits(s: Seq<char>)
    ensures
        s.len() > 0 && s[0] == '"' ==> (match json_value(s) {
            Some(v) => {
                &&& !v.contains('"')
                &&& v.len() + 2 <= s.len()
                &&& s.subrange(1, 1 + v.len() as int) == v
                &&& s[1 + v.len() as int] == '"'
            },
            None => forall|i: int| 1 <= i < s.len() ==> #[trigger] s[i] != '"',
        }),
        !(s.len() > 0 && s[0] == '"') ==> (match json_value(s) {
            Some(v) => {
                &&& 0 < v.len() < s.len()
                &&& s.take(v.len() as int) == v
                &&& forall|i: int| 0 <= i < v.len() ==> '0' <= (#[trigger] v[i]) <= '9'
                &&& !('0' <= s[v.len() as int] <= '9')
            },
            None => s.len() == 0 || !('0' <= s[0] <= '9') || forall|i: int|
                0 <= i < s.len() ==> '0' <= (#[trigger] s[i]) <= '9',
        }),
{
    if s.len() > 0 && s[0] == '"' {
        let rest = s.skip(1);
        text::a_character_is_found_at_its_first_place(rest, '"');
        let end = text::index_of_char(rest, '"');
        if end < rest.len() {
            let v = rest.take(end);
            assert(s.subrange(1, 1 + v.len() as int) =~= v);
            assert(rest[end] == s[1 + end]);
            assert(!v.contains('"')) by {
                if v.contains('"') {
                    let i = v.index_of('"');
                    assert(rest[i] == '"');
                }
            }
        } else {
            assert forall|i: int| 1 <= i < s.len() implies #[trigger] s[i] != '"' by {
                assert(s[i] == rest[i - 1]);
            }
        }
    } else {
        lemma_leading_digits(s);
    }
}

/// The amount an attestation states is a whole number that fits: in an object
/// that of its amount field, and else the one behind the words that say so.
pub proof fn an_amount_is_stated_by_its_field_or_its_words(info: Seq<char>)
    ensures
        info.len() > 0 && info[0] == '{' ==> (stated_amount(info) matches Some(n) ==> n <= u32::MAX
            && (json_field(info, "amount"@, 0) matches Some(v) && text::parsed_number(v) == Some(n))),
        info.len() > 0 && info[0] == '{' ==> (json_field(info, "amount"@, 0) matches Some(v) ==> (
        text::parsed_number(v) matches Some(n) ==> (n <= u32::MAX ==> stated_amount(info) == Some(
            n,
        )))),
        info.len() == 0 || info[0] != '{' ==> (stated_amount(info) matches Some(n) ==> n <= u32::MAX
            && exists|v: Seq<char>|
            info == "donation_amount:"@ + v && text::parsed_number(#[trigger] text::trimmed(v)) == Some(n)),
        info.len() == 0 || info[0] != '{' ==> stated_date(info) is None,
{
    text::a_text_after_its_prefix_is_the_rest(info, 0, "donation_amount:"@);
    if info.len() == 0 || info[0] != '{' {
        if stated_amount(info) is Some {
            let v = text::after_prefix(info, "donation_amount:"@)->0;
            assert(info == "donation_amount:"@ + v);
            assert(text::parsed_number(text::trimmed(v)) == stated_amount(info));
        }
    }
}

/// The months by their names.
pub proof fn the_months_have_their_names()
    ensures
        month_name(1) == "January"@,
        month_name(2) == "February"@,
        month_name(3) == "March"@,
        month_name(4) == "April"@,
        month_name(5) == "May"@,
        month_name(6) == "June"@,
        month_name(7) == "July"@,
        month_name(8) == "August"@,
        month_name(9) == "September"@,
        month_name(10) == "October"@,
        month_name(11) == "November"@,
        month_name(12) == "December"@,
{
}

/// A date of a four-byte year, a month from one to twelve and a day from one
/// to thirty-one, with hyphens between them, reads as the day, the month's
/// name and the year; with any other month or day, or more or fewer parts, it
/// is no date.
pub proof fn a_date_reads_as_day_month_and_year(year: Seq<char>, month: Seq<char>, day: Seq<char>)
    requires
        !year.contains('-'),
        !month.contains('-'),
        !day.contains('-'),
    ensures
        ({
            let date = year + seq!['-'] + (month + seq!['-'] + day);
            let m = text::parsed_number(month);
            let d = text::parsed_number(day);
            let is_date = {
                &&& vstd::utf8::encode_utf8(year).len() == 4
                &&& m matches Some(m) && 1 <= m <= 12
                &&& d matches Some(d) && 1 <= d <= 31
            };
            &&& is_date ==> readable_date(date) == Some(
                text::decimal(d->0) + " "@ + month_name(m->0) + " "@ + year,
            )
            &&& !is_date ==> readable_date(date) is None
        }),
        readable_date(year) is None,
        readable_date(year + seq!['-'] + month) is None,
{
    text::a_separator_parts_the_pieces(year, month + seq!['-'] + day, '-');
    text::a_separator_parts_the_pieces(month, day, '-');
    text::a_separator_parts_the_pieces(day, day, '-');
    text::a_separator_parts_the_pieces(year, month, '-');
    let date = year + seq!['-'] + (month + seq!['-'] + day);
    assert(text::split_on(date, '-') =~= seq![year, month, day]);
    assert(text::split_on(year + seq!['-'] + month, '-') =~= seq![year, month]);
}

/// An attestation is shown by the amount and the date it states, by the one
/// it states where it states one, and else as it stands.
pub proof fn an_attestation_shows_what_it_states(info: Seq<char>)
    ensures
        stated_amount(info) is None && stated_date(info) is None ==> attestation(info) == info,
        stated_amount(info) matches Some(n) ==> (stated_date(info) is None ==> attestation(info)
            == "$"@ + text::decimal(n) + " donated"@),
        stated_date(info) matches Some(d) ==> (stated_amount(info) is None ==> attestation(info)
            == "donated "@ + d),
        stated_amount(info) matches Some(n) ==> (stated_date(info) matches Some(d) ==> attestation(
            info,
        ) == "$"@ + text::decimal(n) + " donated, "@ + d),
{
}

/// The date an object states is that of its creation field, up to the first
/// space.
pub proof fn a_date_is_stated_up_to_the_first_space(info: Seq<char>, day: Seq<char>, rest: Seq<char>)
    requires
        info.len() > 0,
        info[0] == '{',
        !day.contains(' '),
    ensures
        json_field(info, "delegate-key-created"@, 0) is None ==> stated_date(info) is None,
        json_field(info, "delegate-key-created"@, 0) == Some(day + seq![' '] + rest)
            ==> stated_date(info) == readable_date(day),
        json_field(info, "delegate-key-created"@, 0) == Some(day) ==> stated_date(info)
            == readable_date(day),
{
    let whole = day + seq![' '] + rest;
    text::a_character_is_found_at_its_first_place(whole, ' ');
    text::a_character_is_found_at_its_first_place(day, ' ');
    let k = text::index_of_char(whole, ' ');
    assert(whole[day.len() as int] == ' ');
    if k < day.len() {
        assert(whole[k] == day[k]);
        assert(day.contains(day[k]));
    }
    let j = text::index_of_char(day, ' ');
    if j < day.len() {
        assert(day.contains(day[j]));
    }
    assert(whole.take(k) =~= day);
    assert(day.take(j) =~= day);
}

/// A field that stands at the first level, outside any string, with a colon
/// behind its quoted name and white space around the colon at most, is a
/// field, and its value is what starts behind the colon and that white space.
/// Where no field of its name stands before it, it is the one that is read.
pub proof fn the_first_field_of_a_name_is_read(
    s: Seq<char>,
    key: Seq<char>,
    i: int,
    colon: int,
    value: int,
)
    requires
        0 <= i,
        i + key.len() + 2 <= colon < value <= s.len(),
        !scanned(s, i).in_string,
        scanned(s, i).depth == 1,
        s[i] == '"',
        forall|j: int| 0 <= j < key.len() ==> s[i + 1 + j] == #[trigger] key[j],
        s[i + 1 + key.len()] == '"',
        forall|j: int| i + key.len() + 2 <= j < colon ==> text::is_white_space(#[trigger] s[j]),
        s[colon] == ':',
        forall|j: int| colon < j < value ==> text::is_white_space(#[trigger] s[j]),
        value < s.len() ==> !text::is_white_space(s[value]),
        forall|j: int| 0 <= j < i ==> !#[trigger] field_at(s, key, j),
    ensures
        field_at(s, key, i),
        value_of_field(s, key, i) == json_value(s.skip(value)),
        json_field(s, key, 0) == json_value(s.skip(value)),
{
    reveal_strlit("\"");
    let name = quoted(key);
    assert(name.len() == key.len() + 2);
    assert forall|j: int| 0 <= j < name.len() implies s[i + j] == #[trigger] name[j] by {
        if 0 < j < name.len() - 1 {
            assert(name[j] == key[j - 1]);
            assert(s[i + 1 + (j - 1)] == key[j - 1]);
        }
    }
    text::a_text_after_its_prefix_is_the_rest(s, i, name);
    let rest = s.skip(i + name.len());
    lemma_trimmed_start_from(rest, colon - (i + name.len()));
    assert(rest.skip(colon - (i + name.len())) =~= s.skip(colon));
    let behind = s.skip(colon).skip(1);
    assert(behind =~= s.skip(colon + 1));
    lemma_trimmed_start_from(behind, value - (colon + 1));
    assert(behind.skip(value - (colon + 1)) =~= s.skip(value));
    assert(field_at(s, key, i));
    lemma_field_found(s, key, 0, i);
}

proof fn lemma_trimmed_start_from(s: Seq<char>, a: int)
    requires
        0 <= a <= s.len(),
        forall|j: int| 0 <= j < a ==> text::is_white_space(#[trigger] s[j]),
        a < s.len() ==> !text::is_white_space(s[a]),
    ensures
        text::trimmed_start(s) == s.skip(a),
    decreases a,
{
    if a > 0 {
        let rest = s.skip(1);
        assert forall|j: int| 0 <= j < a - 1 implies text::is_white_space(#[trigger] rest[j]) by {
            assert(rest[j] == s[j + 1]);
        }
        lemma_trimmed_start_from(rest, a - 1);
        assert(rest.skip(a - 1) =~= s.skip(a));
    } else {
        assert(s.skip(0) =~= s);
    }
}

proof fn lemma_field_found(s: Seq<char>, key: Seq<char>, from: int, i: int)
    requires
        0 <= from <= i < s.len(),
        field_at(s, key, i),
        forall|j: int| from <= j < i ==> !#[trigger] field_at(s, key, j),
    ensures
        json_field(s, key, from) == value_of_field(s, key, i),
    decreases i - from,
{
    if from < i {
        assert(!field_at(s, key, from));
        lemma_field_found(s, key, from + 1, i);
    }
}

} // verus!
