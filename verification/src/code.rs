//! Short codes: a user id written with eight hexadecimal digits, as users pass
//! it on to each other.

use vstd::prelude::*;

verus! {

/// The number of digits of a short code.
pub const USER_ID_LENGTH: usize = 8;

/// Whether `c` is a hexadecimal digit, in either case.
pub open spec fn is_hex_digit(c: char) -> bool {
    ('0' <= c && c <= '9') || ('a' <= c && c <= 'f') || ('A' <= c && c <= 'F')
}

/// The value of a hexadecimal digit.
pub open spec fn hex_digit_value(c: char) -> nat {
    if '0' <= c && c <= '9' {
        (c as nat - 48) as nat
    } else if 'a' <= c && c <= 'f' {
        (c as nat - 87) as nat
    } else {
        (c as nat - 55) as nat
    }
}

/// The lower-case hexadecimal digit of value `d`, for `d` below 16.
pub open spec fn hex_char(d: nat) -> char {
    if d < 10 {
        (d + 48) as char
    } else {
        (d + 87) as char
    }
}

/// The number that a text of hexadecimal digits writes, most significant
/// digit first.
pub open spec fn hex_value(digits: Seq<char>) -> nat
    decreases digits.len(),
{
    if digits.len() == 0 {
        0
    } else {
        16 * hex_value(digits.drop_last()) + hex_digit_value(digits.last())
    }
}

/// `n` in lower-case hexadecimal, with zeros in front where it has fewer than
/// `width` digits. A wider number is written in full.
pub open spec fn hex_text(n: nat, width: nat) -> Seq<char>
    decreases n, width,
{
    if n == 0 && width == 0 {
        Seq::empty()
    } else {
        hex_text(n / 16, if width > 0 { (width - 1) as nat } else { 0 }).push(hex_char(n % 16))
    }
}

/// The short code of an id.
pub open spec fn encoded(id: u128) -> Seq<char> {
    hex_text(id as nat, USER_ID_LENGTH as nat)
}

/// Whether a character belongs to a code. `#` and `-` only set a code off or
/// group its digits.
pub open spec fn is_code_char(c: char) -> bool {
    c != '#' && c != '-'
}

/// A code as typed, without every `#` and `-`.
pub open spec fn sanitized(code: Seq<char>) -> Seq<char> {
    code.filter(|c: char| is_code_char(c))
}

/// Whether every character of a text is a hexadecimal digit.
pub open spec fn all_hex(digits: Seq<char>) -> bool {
    forall|i: int| 0 <= i < digits.len() ==> is_hex_digit(#[trigger] digits[i])
}

/// Whether a code as typed stands for an id: without `#` and `-` it is made of
/// exactly eight hexadecimal digits.
pub open spec fn valid(code: Seq<char>) -> bool {
    sanitized(code).len() == USER_ID_LENGTH && all_hex(sanitized(code))
}

/// The id that a code as typed stands for, if it stands for one.
pub open spec fn decoded(code: Seq<char>) -> Option<u128> {
    if valid(code) {
        Some(hex_value(sanitized(code)) as u128)
    } else {
        None
    }
}

/// 16 to the power of `n`.
pub open spec fn sixteen_to(n: nat) -> nat
    decreases n,
{
    if n == 0 {
        1
    } else {
        16 * sixteen_to((n - 1) as nat)
    }
}

/// The lower-case digit of value `d`.
fn digit_char(d: u8) -> (c: char)
    requires
        d < 16,
    ensures
        c == hex_char(d as nat),
{
    if d < 10 {
        (d + 48) as char
    } else {
        (d + 87) as char
    }
}

/// The value of `c` as a hexadecimal digit, if it is one.
fn digit_value(c: char) -> (value: Option<u8>)
    ensures
        value is Some <==> is_hex_digit(c),
        value matches Some(d) ==> d == hex_digit_value(c) && d < 16,
{
    if '0' <= c && c <= '9' {
        Some((c as u32 - 48) as u8)
    } else if 'a' <= c && c <= 'f' {
        Some((c as u32 - 87) as u8)
    } else if 'A' <= c && c <= 'F' {
        Some((c as u32 - 55) as u8)
    } else {
        None
    }
}

/// How many digits are still owed to the width of a code once `written` of
/// them stand.
pub open spec fn width_left(written: nat) -> nat {
    if written >= USER_ID_LENGTH {
        0
    } else {
        (USER_ID_LENGTH - written) as nat
    }
}

/// Writes an id as its short code: lower-case hexadecimal, with zeros in front
/// up to eight digits. An id of [`crate::user::USER_ID_MAX`] or more needs more
/// than eight digits and gets them.
pub fn encode(id: u128) -> (code: String)
    ensures
        code@ == encoded(id),
{
    let mut low_first: Vec<char> = Vec::new();
    let mut rest: u128 = id;
    while rest > 0 || low_first.len() < USER_ID_LENGTH
        invariant
            encoded(id) == hex_text(rest as nat, width_left(low_first@.len()))
                + low_first@.reverse(),
        decreases rest, width_left(low_first@.len()),
    {
        let ghost before = low_first@;
        let digit = digit_char((rest % 16) as u8);
        low_first.push(digit);
        proof {
            assert(low_first@.reverse() =~= seq![digit] + before.reverse());
            let shorter = hex_text((rest / 16) as nat, width_left(low_first@.len()));
            assert(hex_text(rest as nat, width_left(before.len())) == shorter.push(digit));
            assert(shorter.push(digit) + before.reverse() =~= shorter + low_first@.reverse());
        }
        rest = rest / 16;
    }
    let mut code = String::new();
    let mut left: usize = low_first.len();
    while left > 0
        invariant
            left <= low_first.len(),
            code@ == low_first@.reverse().take(low_first.len() - left),
        decreases left,
    {
        left = left - 1;
        code.push(low_first[left]);
        proof {
            let high_first = low_first@.reverse();
            let done = low_first.len() - left;
            assert(high_first.take(done) =~= high_first.take(done - 1).push(low_first@[left as int]));
        }
    }
    proof {
        assert(low_first@.reverse().take(low_first.len() as int) =~= low_first@.reverse());
        assert(hex_text(0, 0) + low_first@.reverse() =~= low_first@.reverse());
    }
    code
}

/// Drops every `#` and `-` from a code as typed and keeps all else as it is.
pub fn sanitize(code: &str) -> (clean: String)
    ensures
        clean@ == sanitized(code@),
{
    let mut clean = String::new();
    for c in walk: code.chars()
        invariant
            walk.seq() == code@,
            clean@ == sanitized(code@.take(walk.index())),
        ensures
            clean@ == sanitized(code@.take(code@.len() as int)),
    {
        proof {
            let seen = code@.take(walk.index());
            assert(code@.take(walk.index() + 1) =~= seen.push(c));
            seen.lemma_filter_push(c, |c: char| is_code_char(c));
        }
        if c != '#' && c != '-' {
            clean.push(c);
        }
    }
    proof {
        assert(code@.take(code@.len() as int) =~= code@);
    }
    clean
}

/// Reads a code that was sanitized already.
fn read_digits(clean: &str) -> (id: Option<u128>)
    ensures
        id == if clean@.len() == USER_ID_LENGTH && all_hex(clean@) {
            Some(hex_value(clean@) as u128)
        } else {
            None::<u128>
        },
{
    let mut value: u128 = 0;
    let mut count: usize = 0;
    for c in walk: clean.chars()
        invariant
            walk.seq() == clean@,
            count == walk.index(),
            count <= USER_ID_LENGTH,
            all_hex(clean@.take(count as int)),
            value == hex_value(clean@.take(count as int)),
            value < sixteen_to(count as nat),
        ensures
            count == clean@.len(),
            count <= USER_ID_LENGTH,
            all_hex(clean@.take(count as int)),
            value == hex_value(clean@.take(count as int)),
    {
        if count == USER_ID_LENGTH {
            return None;
        }
        let ghost seen = clean@.take(count as int);
        let ghost longer = clean@.take(count + 1);
        proof {
            assert(longer.drop_last() =~= seen);
            assert(longer.last() == c);
            lemma_sixteen_to_grows((count + 1) as nat, USER_ID_LENGTH as nat);
            lemma_sixteen_to_eight();
        }
        match digit_value(c) {
            Some(d) => {
                value = value * 16 + d as u128;
            },
            None => {
                assert(!is_hex_digit(clean@[count as int]));
                return None;
            },
        }
        count = count + 1;
        proof {
            assert forall|i: int| 0 <= i < longer.len() implies is_hex_digit(
                #[trigger] longer[i],
            ) by {
                if i < seen.len() {
                    assert(longer[i] == seen[i]);
                }
            }
        }
    }
    proof {
        assert(clean@.take(count as int) =~= clean@);
        lemma_sixteen_to_eight();
    }
    if count == USER_ID_LENGTH {
        Some(value)
    } else {
        None
    }
}

/// Whether a code as typed stands for an id: once every `#` and `-` is
/// dropped, exactly eight characters are left and each is a hexadecimal digit.
pub fn is_valid(code: &str) -> (ok: bool)
    ensures
        ok == valid(code@),
{
    let clean = sanitize(code);
    read_digits(clean.as_str()).is_some()
}

/// The id that a code as typed stands for, or `None` where [`is_valid`] rejects
/// the code. Digits of either case are read.
pub fn decode(code: &str) -> (id: Option<u128>)
    ensures
        id == decoded(code@),
{
    let clean = sanitize(code);
    read_digits(clean.as_str())
}

/// 16 to the power of 8 is the bound of the random ids.
pub proof fn lemma_sixteen_to_eight()
    ensures
        sixteen_to(USER_ID_LENGTH as nat) == 4294967296,
{
    reveal_with_fuel(sixteen_to, 9);
}

/// The powers of 16 grow with the exponent.
pub proof fn lemma_sixteen_to_grows(low: nat, high: nat)
    requires
        low <= high,
    ensures
        0 < sixteen_to(low) <= sixteen_to(high),
    decreases high,
{
    if low < high {
        lemma_sixteen_to_grows(low, (high - 1) as nat);
    } else if low > 0 {
        lemma_sixteen_to_grows((low - 1) as nat, (low - 1) as nat);
    }
}

/// A number written in hexadecimal reads back as itself, and its text is made
/// of hexadecimal digits alone.
pub proof fn lemma_hex_text_reads_back(n: nat, width: nat)
    ensures
        hex_value(hex_text(n, width)) == n,
        all_hex(hex_text(n, width)),
        forall|i: int|
            0 <= i < hex_text(n, width).len() ==> is_code_char(#[trigger] hex_text(n, width)[i]),
    decreases n, width,
{
    if !(n == 0 && width == 0) {
        let shorter = hex_text(n / 16, if width > 0 { (width - 1) as nat } else { 0 });
        let text = hex_text(n, width);
        lemma_hex_text_reads_back(n / 16, if width > 0 { (width - 1) as nat } else { 0 });
        assert(text.drop_last() =~= shorter);
        assert(hex_digit_value(hex_char(n % 16)) == n % 16);
        assert forall|i: int| 0 <= i < text.len() implies is_hex_digit(#[trigger] text[i])
            && is_code_char(text[i]) by {
            if i < shorter.len() {
                assert(text[i] == shorter[i]);
            }
        }
    }
}

/// A number below 16 to the power of `width` is written with exactly `width`
/// digits, a greater one with more.
pub proof fn lemma_hex_text_len(n: nat, width: nat)
    ensures
        n < sixteen_to(width) ==> hex_text(n, width).len() == width,
        n >= sixteen_to(width) ==> hex_text(n, width).len() > width,
    decreases n, width,
{
    if !(n == 0 && width == 0) {
        lemma_hex_text_len(n / 16, if width > 0 { (width - 1) as nat } else { 0 });
    }
}

/// A text without `#` and `-` is its own sanitized form.
pub proof fn lemma_sanitized_keeps_clean(code: Seq<char>)
    requires
        forall|i: int| 0 <= i < code.len() ==> is_code_char(#[trigger] code[i]),
    ensures
        sanitized(code) == code,
    decreases code.len(),
{
    if code.len() > 0 {
        lemma_sanitized_keeps_clean(code.drop_last());
        code.drop_last().lemma_filter_push(code.last(), |c: char| is_code_char(c));
        assert(code.drop_last().push(code.last()) =~= code);
    } else {
        assert(sanitized(code) =~= code);
    }
}

/// Decoding undoes encoding: the short code of an id below 16 to the power of
/// 8 is valid and stands for that id.
pub proof fn lemma_decode_encode(id: u128)
    requires
        id < crate::user::USER_ID_MAX,
    ensures
        valid(encoded(id)),
        decoded(encoded(id)) == Some(id),
{
    lemma_sixteen_to_eight();
    lemma_hex_text_len(id as nat, USER_ID_LENGTH as nat);
    lemma_hex_text_reads_back(id as nat, USER_ID_LENGTH as nat);
    lemma_sanitized_keeps_clean(encoded(id));
}

/// The short code of an id of 16 to the power of 8 or more has more than eight
/// digits, so it is not valid and decodes to nothing.
pub proof fn lemma_wide_id_has_no_code(id: u128)
    requires
        id >= crate::user::USER_ID_MAX,
    ensures
        encoded(id).len() > USER_ID_LENGTH,
        !valid(encoded(id)),
        decoded(encoded(id)) is None,
{
    lemma_sixteen_to_eight();
    lemma_hex_text_len(id as nat, USER_ID_LENGTH as nat);
    lemma_hex_text_reads_back(id as nat, USER_ID_LENGTH as nat);
    lemma_sanitized_keeps_clean(encoded(id));
}

} // verus!
