//! Server error codes: what each known code means, which of them say that a
//! task needs no further attempt, and the `[code] text` form in which errors
//! are reported.

use vstd::prelude::*;
use crate::b64::ascii_chars;
use crate::text::{int_decimal, i32_text, first_index, find_byte, slice_between, lemma_first_index, lemma_first_index_at};
use crate::value::Value;

verus! {

/// The description of a known server error code.
pub open spec fn description(code: i32) -> Option<Seq<char>> {
    match code {
        200020 => Some("Something went wrong; try restarting the client"@),
        200160 => Some("Feature not unlocked"@),
        200330 => Some("Invalid ID"@),
        200400 => Some("Action performed too quickly; try again later"@),
        200750 => Some("Arena battle attempts exhausted"@),
        200760 => Some("Interface state changed; log in again"@),
        400000 => Some("Item does not exist"@),
        400010 => Some("Insufficient item quantity"@),
        400030 => Some("Daily free attempts exhausted"@),
        400190 => Some("No check-in rewards available to claim"@),
        400340 => Some("Attempts exhausted"@),
        700010 => Some("Task completion conditions not met"@),
        700020 => Some("Task already claimed"@),
        1000020 => Some("Today's reward already claimed"@),
        1300040 => Some("No Black Market purchase option is configured"@),
        1300050 => Some("Adjust the purchase quantity"@),
        1400010 => Some("No monthly card purchased; cannot claim daily rewards"@),
        2600040 => Some("Salted-Fish King Dreamscape challenge attempts exhausted"@),
        2600050 => Some("Salted-Fish King Dreamscape cleared or needs no further action"@),
        2600080 => Some("Salted-Fish King Dreamscape cleared or needs no further action"@),
        1500010 => Some("All floors cleared"@),
        1500020 => Some("Insufficient energy"@),
        1500040 => Some("Previous tower reward has not been claimed"@),
        2100010 => Some("Evo Tower event is not active or has ended"@),
        12200020 => Some("Evo Tower has pending chapter rewards or challenge state"@),
        12200040 => Some("Evo Tower task conditions are not met; cannot claim yet"@),
        12200050 => Some("Evo Tower task already claimed; cannot claim again"@),
        2300070 => Some("Not a club member"@),
        2300190 => Some("Already checked in today"@),
        2300250 => Some("Today's Club Boss attempts exhausted"@),
        2300370 => Some("Club purchase limit exceeded"@),
        3300050 => Some("Purchase limit exceeded"@),
        3300060 => Some("Sweep conditions not met"@),
        3500020 => Some("No rewards available to claim"@),
        7500100 => Some("Incorrect password"@),
        7500120 => Some("Password attempt limit reached"@),
        7500140 => Some("Enter the password first"@),
        7900023 => Some("Usage limit reached"@),
        -10006 => Some("Today's reward already claimed or attempts exhausted"@),
        12000050 => Some("Daily vehicle dispatch limit reached"@),
        12000060 => Some("Outside the vehicle dispatch window"@),
        12000116 => Some("Today's free reward already claimed"@),
        200120 => Some("Reward does not exist or cannot be claimed"@),
        12300040 => Some("No empty slots remain"@),
        12300080 => Some("Unlock conditions not met"@),
        12400000 => Some("Hangup rewards are being claimed too frequently"@),
        _ => None,
    }
}

/// The codes that mean a task is done, exhausted or cannot be done, so that
/// it is not tried again.
pub open spec fn done_codes() -> Set<i32> {
    set![
        400030i32,
        400190i32,
        400340i32,
        700020i32,
        1000020i32,
        2300190i32,
        2300250i32,
        3300050i32,
        3500020i32,
        7900023i32,
        -10006i32,
        12000116i32,
        200750i32,
        12400000i32,
        200020i32,
        200120i32,
        200160i32,
        2100010i32,
        12200050i32,
        400000i32,
        400010i32,
        1300040i32,
        1300050i32,
        1400010i32,
        2600040i32,
        2600050i32,
        2600080i32,
        2300070i32,
        2300370i32,
        3300060i32
    ]
}

/// The message for an error code: `[code] ` and then the code's description,
/// else the server's hint, else `unknown code`.
pub open spec fn error_message(code: i32, hint: Option<Seq<char>>) -> Seq<char> {
    "["@ + ascii_chars(int_decimal(code as int)) + "] "@ + match description(code) {
        Some(d) => d,
        None => match hint {
            Some(h) => h,
            None => "unknown code"@,
        },
    }
}

/// The code an error message starts with: the text between a leading `[`
/// and the first `]`, read as an `i32`.
pub open spec fn code_in_error(b: Seq<u8>) -> Option<i32> {
    if b.len() > 0 && b[0] == 0x5b {
        match first_index(b, 0x5d) {
            Some(e) => i32_text(b.subrange(1, e)),
            None => None,
        }
    } else {
        None
    }
}

/// The description of a known error code.
pub fn lookup(code: i32) -> (r: Option<&'static str>)
    ensures
        match description(code) {
            Some(d) => r matches Some(s) && s@ == d,
            None => r is None,
        },
{
    match code {
        200020 => Some("Something went wrong; try restarting the client"),
        200160 => Some("Feature not unlocked"),
        200330 => Some("Invalid ID"),
        200400 => Some("Action performed too quickly; try again later"),
        200750 => Some("Arena battle attempts exhausted"),
        200760 => Some("Interface state changed; log in again"),
        400000 => Some("Item does not exist"),
        400010 => Some("Insufficient item quantity"),
        400030 => Some("Daily free attempts exhausted"),
        400190 => Some("No check-in rewards available to claim"),
        400340 => Some("Attempts exhausted"),
        700010 => Some("Task completion conditions not met"),
        700020 => Some("Task already claimed"),
        1000020 => Some("Today's reward already claimed"),
        1300040 => Some("No Black Market purchase option is configured"),
        1300050 => Some("Adjust the purchase quantity"),
        1400010 => Some("No monthly card purchased; cannot claim daily rewards"),
        2600040 => Some("Salted-Fish King Dreamscape challenge attempts exhausted"),
        2600050 => Some("Salted-Fish King Dreamscape cleared or needs no further action"),
        2600080 => Some("Salted-Fish King Dreamscape cleared or needs no further action"),
        1500010 => Some("All floors cleared"),
        1500020 => Some("Insufficient energy"),
        1500040 => Some("Previous tower reward has not been claimed"),
        2100010 => Some("Evo Tower event is not active or has ended"),
        12200020 => Some("Evo Tower has pending chapter rewards or challenge state"),
        12200040 => Some("Evo Tower task conditions are not met; cannot claim yet"),
        12200050 => Some("Evo Tower task already claimed; cannot claim again"),
        2300070 => Some("Not a club member"),
        2300190 => Some("Already checked in today"),
        2300250 => Some("Today's Club Boss attempts exhausted"),
        2300370 => Some("Club purchase limit exceeded"),
        3300050 => Some("Purchase limit exceeded"),
        3300060 => Some("Sweep conditions not met"),
        3500020 => Some("No rewards available to claim"),
        7500100 => Some("Incorrect password"),
        7500120 => Some("Password attempt limit reached"),
        7500140 => Some("Enter the password first"),
        7900023 => Some("Usage limit reached"),
        -10006 => Some("Today's reward already claimed or attempts exhausted"),
        12000050 => Some("Daily vehicle dispatch limit reached"),
        12000060 => Some("Outside the vehicle dispatch window"),
        12000116 => Some("Today's free reward already claimed"),
        200120 => Some("Reward does not exist or cannot be claimed"),
        12300040 => Some("No empty slots remain"),
        12300080 => Some("Unlock conditions not met"),
        12400000 => Some("Hangup rewards are being claimed too frequently"),
        _ => None,
    }
}

/// The message for an error code: the known description first, then the
/// hint, then `unknown code`.
pub fn format_error(code: i32, hint: Option<&str>) -> (r: String)
    ensures
        r@ == error_message(
            code,
            match hint {
                Some(h) => Some(h@),
                None => None,
            },
        ),
{
    let mut m = String::from_str("[");
    m.append(crate::text::int_text(code as i64).as_str());
    m.append("] ");
    match lookup(code) {
        Some(desc) => m.append(desc),
        None => match hint {
            Some(h) => m.append(h),
            None => m.append("unknown code"),
        },
    }
    m
}

/// Whether a code says that a task needs no further attempt.
pub fn is_done_error(code: i32) -> (r: bool)
    ensures
        r == done_codes().contains(code),
{
    match code {
        400030 | 400190 | 400340 | 700020 | 1000020 | 2300190
        | 2300250 | 3300050 | 3500020 | 7900023 | -10006 | 12000116
        | 200750 | 12400000 | 200020 | 200120 | 200160 | 2100010
        | 12200050 | 400000 | 400010 | 1300040 | 1300050 | 1400010
        | 2600040 | 2600050 | 2600080 | 2300070 | 2300370 | 3300060 => true,
        _ => false,
    }
}

/// The code an error message starts with, as `[12345] ...` carries it.
pub fn extract_code_from_error(err: &str) -> (r: Option<i32>)
    ensures
        r == code_in_error(vstd::utf8::encode_utf8(err@)),
{
    let b = err.as_bytes();
    if b.len() > 0 && b[0] == 0x5b {
        match find_byte(b, 0x5d) {
            Some(end) => {
                proof {
                    lemma_first_index(b@, 0x5d);
                }
                let inner = slice_between(b, 1, end);
                crate::text::parse_i32(inner.as_slice())
            },
            None => None,
        }
    } else {
        None
    }
}

/// Whether a task's outcome needs no further attempt: a success, or an error
/// whose code says the task is done.
pub fn is_done_result(result: &Result<Value, String>) -> (r: bool)
    ensures
        r == match result {
            Ok(_) => true,
            Err(e) => match code_in_error(vstd::utf8::encode_utf8(e@)) {
                Some(c) => done_codes().contains(c),
                None => false,
            },
        },
{
    match result {
        Ok(_) => true,
        Err(e) => match extract_code_from_error(e.as_str()) {
            Some(code) => is_done_error(code),
            None => false,
        },
    }
}

/// An error message reads back as its code: whatever the code and the hint,
/// the code found at the start of `format_error`'s message is the code it
/// was made from.
pub proof fn law_error_code_reads_back(code: i32, hint: Option<Seq<char>>)
    ensures
        code_in_error(vstd::utf8::encode_utf8(error_message(code, hint))) == Some(code),
{
    let digits = int_decimal(code as int);
    let tail = match description(code) {
        Some(d) => d,
        None => match hint {
            Some(h) => h,
            None => "unknown code"@,
        },
    };
    let open_c = "["@;
    let close_c = "] "@;
    reveal_strlit("[");
    reveal_strlit("] ");
    assert(open_c =~= ascii_chars(seq![0x5bu8]));
    assert(close_c =~= ascii_chars(seq![0x5du8, 0x20u8]));
    crate::b64::lemma_ascii_utf8(seq![0x5bu8]);
    crate::b64::lemma_ascii_utf8(seq![0x5du8, 0x20u8]);
    if code < 0 {
        crate::text::lemma_nat_decimal_ascii((-code) as nat);
        assert(crate::b64::all_ascii(digits));
    } else {
        crate::text::lemma_nat_decimal_ascii(code as nat);
    }
    crate::b64::lemma_ascii_utf8(digits);
    let dc = ascii_chars(digits);
    crate::text::lemma_encode_utf8_concat(open_c, dc);
    crate::text::lemma_encode_utf8_concat(open_c + dc, close_c);
    crate::text::lemma_encode_utf8_concat(open_c + dc + close_c, tail);
    let b = vstd::utf8::encode_utf8(error_message(code, hint));
    assert(b =~= seq![0x5bu8] + digits + seq![0x5du8, 0x20u8] + vstd::utf8::encode_utf8(tail));
    crate::text::law_int_decimal_reads_back(code as int);
    assert forall|j: int| 0 <= j < 1 + digits.len() implies b[j] != 0x5d by {
        if j > 0 {
            assert(b[j] == digits[j - 1]);
            if code < 0 {
                crate::text::lemma_nat_decimal_value((-code) as nat);
            } else {
                crate::text::lemma_nat_decimal_value(code as nat);
            }
        }
    }
    lemma_first_index_at(b, 0x5d, 1 + digits.len() as int);
    assert(b.subrange(1, 1 + digits.len() as int) =~= digits);
}

/// The codes taken as "done, no more tries", listed one by one: the
/// exhausted or already claimed (400030, 400190, 400340, 700020, 1000020,
/// 2300190, 2300250, 3300050, 3500020, 7900023, -10006, 12000116, 200750,
/// 12400000) and those whose condition cannot be met (200020, 200120,
/// 200160, 2100010, 12200050, 400000, 400010, 1300040, 1300050, 1400010,
/// 2600040, 2600050, 2600080, 2300070, 2300370, 3300060). No other code is.
pub proof fn law_done_codes_listed(code: i32)
    ensures
        done_codes().contains(code) <==> ({
            ||| code == 400030
            ||| code == 400190
            ||| code == 400340
            ||| code == 700020
            ||| code == 1000020
            ||| code == 2300190
            ||| code == 2300250
            ||| code == 3300050
            ||| code == 3500020
            ||| code == 7900023
            ||| code == -10006
            ||| code == 12000116
            ||| code == 200750
            ||| code == 12400000
            ||| code == 200020
            ||| code == 200120
            ||| code == 200160
            ||| code == 2100010
            ||| code == 12200050
            ||| code == 400000
            ||| code == 400010
            ||| code == 1300040
            ||| code == 1300050
            ||| code == 1400010
            ||| code == 2600040
            ||| code == 2600050
            ||| code == 2600080
            ||| code == 2300070
            ||| code == 2300370
            ||| code == 3300060
        }),
{
}

} // verus!
