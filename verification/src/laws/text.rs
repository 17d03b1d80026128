//! Texts, numbers, ids and scripts: how they are ordered, written and read.

use crate::arkade::Network;
use crate::chain;
use crate::chain::{AssetId, OutPoint, Txid};
use crate::entry;
use crate::script;
use crate::table::Key;
use crate::text;
use vstd::prelude::*;

verus! {

/// Texts, and byte strings, are ordered by the first place where they differ; one that is the start
/// of the other comes first; no text comes before itself.
pub proof fn law_the_first_difference_decides(
    a: Seq<char>,
    b: Seq<char>,
    x: Seq<u8>,
    y: Seq<u8>,
    k: int,
)
    ensures
        0 <= k < a.len() && k < b.len() && a.take(k) == b.take(k) && a[k] != b[k] ==> (
        text::text_less(a, b) <==> (a[k] as int) < (b[k] as int)),
        a.len() < b.len() && a == b.take(a.len() as int) ==> text::text_less(a, b),
        b.len() <= a.len() && b == a.take(b.len() as int) ==> !text::text_less(a, b),
        0 <= k < x.len() && k < y.len() && x.take(k) == y.take(k) && x[k] != y[k] ==> (
        text::bytes_less(x, y) <==> x[k] < y[k]),
        x.len() < y.len() && x == y.take(x.len() as int) ==> text::bytes_less(x, y),
        y.len() <= x.len() && y == x.take(y.len() as int) ==> !text::bytes_less(x, y),
{
    lemma_text_difference(a, b, k);
    lemma_text_prefix(a, b);
    lemma_bytes_difference(x, y, k);
    lemma_bytes_prefix(x, y);
}

proof fn lemma_text_difference(a: Seq<char>, b: Seq<char>, k: int)
    ensures
        0 <= k < a.len() && k < b.len() && a.take(k) == b.take(k) && a[k] != b[k] ==> (
        text::text_less(a, b) <==> (a[k] as int) < (b[k] as int)),
    decreases k,
{
    if 0 < k < a.len() && k < b.len() && a.take(k) == b.take(k) && a[k] != b[k] {
        assert(a.take(k)[0] == a[0] && b.take(k)[0] == b[0]);
        assert(a.drop_first().take(k - 1) =~= a.take(k).drop_first());
        assert(b.drop_first().take(k - 1) =~= b.take(k).drop_first());
        lemma_text_difference(a.drop_first(), b.drop_first(), k - 1);
    }
}

proof fn lemma_text_prefix(a: Seq<char>, b: Seq<char>)
    ensures
        a.len() < b.len() && a == b.take(a.len() as int) ==> text::text_less(a, b),
        b.len() <= a.len() && b == a.take(b.len() as int) ==> !text::text_less(a, b),
    decreases a.len(),
{
    if a.len() > 0 && b.len() > 0 {
        lemma_text_prefix(a.drop_first(), b.drop_first());
        if a.len() < b.len() && a == b.take(a.len() as int) {
            assert(a[0] == b[0]);
            assert(a.drop_first() =~= b.drop_first().take(a.len() - 1));
        }
        if b.len() <= a.len() && b == a.take(b.len() as int) {
            assert(a[0] == b[0]);
            assert(b.drop_first() =~= a.drop_first().take(b.len() - 1));
        }
    }
}

proof fn lemma_bytes_difference(a: Seq<u8>, b: Seq<u8>, k: int)
    ensures
        0 <= k < a.len() && k < b.len() && a.take(k) == b.take(k) && a[k] != b[k] ==> (
        text::bytes_less(a, b) <==> a[k] < b[k]),
    decreases k,
{
    if 0 < k < a.len() && k < b.len() && a.take(k) == b.take(k) && a[k] != b[k] {
        assert(a.take(k)[0] == a[0] && b.take(k)[0] == b[0]);
        assert(a.drop_first().take(k - 1) =~= a.take(k).drop_first());
        assert(b.drop_first().take(k - 1) =~= b.take(k).drop_first());
        lemma_bytes_difference(a.drop_first(), b.drop_first(), k - 1);
    }
}

proof fn lemma_bytes_prefix(a: Seq<u8>, b: Seq<u8>)
    ensures
        a.len() < b.len() && a == b.take(a.len() as int) ==> text::bytes_less(a, b),
        b.len() <= a.len() && b == a.take(b.len() as int) ==> !text::bytes_less(a, b),
    decreases a.len(),
{
    if a.len() > 0 && b.len() > 0 {
        lemma_bytes_prefix(a.drop_first(), b.drop_first());
        if a.len() < b.len() && a == b.take(a.len() as int) {
            assert(a[0] == b[0]);
            assert(a.drop_first() =~= b.drop_first().take(a.len() - 1));
        }
        if b.len() <= a.len() && b == a.take(b.len() as int) {
            assert(a[0] == b[0]);
            assert(b.drop_first() =~= a.drop_first().take(b.len() - 1));
        }
    }
}

/// The value of a hexadecimal digit, in either case.
pub open spec fn digit_value(c: char) -> int {
    if '0' <= c <= '9' {
        c as int - 48
    } else if 'a' <= c <= 'f' {
        c as int - 87
    } else {
        c as int - 55
    }
}

/// Whether a character is a hexadecimal digit.
pub open spec fn is_digit(c: char) -> bool {
    '0' <= c <= '9' || 'a' <= c <= 'f' || 'A' <= c <= 'F'
}

/// A text is hexadecimal exactly where it has an even number of characters, all of them digits; two
/// digits make a byte, the first the higher half.
pub proof fn law_two_digits_make_a_byte(chars: Seq<char>, i: int)
    ensures
        text::hex_bytes(chars) is Some <==> chars.len() % 2 == 0 && forall|k: int|
            0 <= k < chars.len() ==> is_digit(#[trigger] chars[k]),
        text::hex_bytes(chars) matches Some(bytes) ==> chars.len() == 2 * bytes.len(),
        text::hex_bytes(chars) matches Some(bytes) ==> (0 <= i < bytes.len() ==> bytes[i] == 16
            * digit_value(chars[2 * i]) + digit_value(chars[2 * i + 1])),
    decreases chars.len(),
{
    if chars.len() >= 2 {
        let rest = chars.skip(2);
        law_two_digits_make_a_byte(rest, i - 1);
        assert(forall|k: int| 0 <= k < rest.len() ==> rest[k] == chars[k + 2]);
        if forall|k: int| 0 <= k < chars.len() ==> is_digit(#[trigger] chars[k]) {
            assert(is_digit(chars[0]) && is_digit(chars[1]));
            assert forall|k: int| 0 <= k < rest.len() implies is_digit(#[trigger] rest[k]) by {
                assert(rest[k] == chars[k + 2]);
            }
        }
        if text::hex_bytes(chars) is Some {
            assert forall|k: int| 0 <= k < chars.len() implies is_digit(#[trigger] chars[k]) by {
                if k >= 2 {
                    assert(chars[k] == rest[k - 2]);
                }
            }
            let bytes = text::hex_bytes(chars).unwrap();
            if 0 < i < bytes.len() {
                assert(bytes[i] == text::hex_bytes(rest).unwrap()[i - 1]);
                assert(rest[2 * (i - 1)] == chars[2 * i]);
                assert(rest[2 * (i - 1) + 1] == chars[2 * i + 1]);
            }
        }
    } else if chars.len() == 1 {
    }
}

/// Hexadecimal text has two characters for each byte, digits and small letters, and reads back.
pub proof fn law_hexadecimal_text_is_lower_case(bytes: Seq<u8>, i: int)
    ensures
        text::hex_text(bytes).len() == 2 * bytes.len(),
        0 <= i < 2 * bytes.len() ==> {
            let c = text::hex_text(bytes)[i];
            '0' <= c <= '9' || 'a' <= c <= 'f'
        },
        text::hex_bytes(text::hex_text(bytes)) == Some(bytes),
    decreases bytes.len(),
{
    text::law_hex_round_trip(bytes);
    if bytes.len() > 0 {
        law_hexadecimal_text_is_lower_case(bytes.drop_first(), i - 2);
        if i >= 2 && i < 2 * bytes.len() {
            assert(text::hex_text(bytes)[i] == text::hex_text(bytes.drop_first())[i - 2]);
        }
    }
}

/// A number reads back from its decimal text, which has no leading zero and no sign but the minus of
/// a negative number.
pub proof fn law_numbers_read_back(value: int)
    ensures
        text::parsed_int(text::int_text(value)) == Some(value),
        0 <= value <= u64::MAX ==> text::parsed_u64(text::int_text(value)) == Some(value as u64),
        i64::MIN <= value <= i64::MAX ==> text::parsed_i64(text::int_text(value)) == Some(
            value as i64,
        ),
        value >= 0 ==> text::int_text(value) == text::decimal_text(value as nat),
        value < 0 ==> text::int_text(value)[0] == '-',
        value > 0 ==> text::int_text(value)[0] != '0',
{
    let size = if value < 0 {
        (-value) as nat
    } else {
        value as nat
    };
    lemma_decimal(size);
    let digits = text::decimal_text(size);
    if value < 0 {
        assert(text::int_text(value).drop_first() =~= digits);
    }
}

proof fn lemma_decimal(value: nat)
    ensures
        text::decimal_text(value).len() >= 1,
        '0' <= text::decimal_text(value)[0] <= '9',
        text::digits_value(text::decimal_text(value)) == Some(value),
        value > 0 ==> text::decimal_text(value)[0] != '0',
    decreases value,
{
    let digits = text::decimal_text(value);
    if value < 10 {
        assert(digits.drop_last() =~= Seq::empty());
        reveal_with_fuel(text::digits_value, 2);
    } else {
        lemma_decimal(value / 10);
        assert(digits.drop_last() =~= text::decimal_text(value / 10));
    }
}

/// A number is read from its digits, ten times what stands before each; nothing is read from a text
/// with anything else in it.
pub proof fn law_digits_count_tens(digits: Seq<char>, digit: char)
    ensures
        text::digits_value(Seq::empty()) == Some(0nat),
        '0' <= digit <= '9' ==> (text::digits_value(digits) matches Some(value)
            ==> text::digits_value(digits.push(digit)) == Some(
            (10 * value + (digit as int - 48)) as nat,
        )),
        !('0' <= digit <= '9') ==> text::digits_value(digits.push(digit)) is None,
        text::digits_value(digits) is None ==> text::digits_value(digits.push(digit)) is None,
        text::parsed_int(Seq::empty()) is None,
        text::parsed_int(seq!['-']) is None,
        text::parsed_int(seq!['+']) is None,
        digits.len() > 0 && '0' <= digits[0] <= '9' ==> {
            let read = match text::digits_value(digits) {
                Some(value) => Some(value as int),
                None => None,
            };
            let negative = match text::digits_value(digits) {
                Some(value) => Some(-(value as int)),
                None => None,
            };
            &&& text::parsed_int(digits) == read
            &&& text::parsed_int(seq!['+'] + digits) == read
            &&& text::parsed_int(seq!['-'] + digits) == negative
        },
        text::parsed_int(digits) matches Some(value) ==> {
            &&& text::parsed_u64(digits) == if digits[0] != '-' && value <= u64::MAX {
                Some(value as u64)
            } else {
                None
            }
            &&& text::parsed_i64(digits) == if i64::MIN <= value <= i64::MAX {
                Some(value as i64)
            } else {
                None
            }
        },
        text::parsed_int(digits) is None ==> text::parsed_u64(digits) is None && text::parsed_i64(
            digits,
        ) is None,
{
    assert(digits.push(digit).drop_last() =~= digits);
    assert((seq!['+'] + digits).drop_first() =~= digits);
    assert((seq!['-'] + digits).drop_first() =~= digits);
}

/// Only the letters from A to Z have another lower case.
pub proof fn law_lower_case_changes_letters_only(chars: Seq<char>, i: int)
    requires
        0 <= i < chars.len(),
    ensures
        text::lower(chars).len() == chars.len(),
        'A' <= chars[i] <= 'Z' ==> text::lower(chars)[i] as int == chars[i] as int + 32,
        !('A' <= chars[i] <= 'Z') ==> text::lower(chars)[i] == chars[i],
{
}

/// Trimming takes white space from both ends, and nothing else.
pub proof fn law_trimming_takes_the_ends_only(chars: Seq<char>)
    ensures
        ({
            let inner = text::trimmed(chars);
            &&& inner.len() > 0 ==> !text::is_white(inner[0]) && !text::is_white(inner.last())
            &&& exists|at: int| #[trigger] is_cut(chars, inner, at)
        }),
        text::is_white(' ') && text::is_white('\t') && text::is_white('\n') && text::is_white('\r'),
        forall|c: char| '!' <= c <= '~' ==> !#[trigger] text::is_white(c),
{
    lemma_trim_start(chars);
    let start = text::trim_start(chars);
    let at = chars.len() - start.len();
    let white = |c: char| text::is_white(c);
    lemma_without_trailing(start, white);
    let inner = text::trimmed(chars);
    assert(inner == text::without_trailing(start, white));
    if inner.len() > 0 {
        assert(inner[0] == start[0]);
        assert(!white(inner.last()));
    }
    assert forall|i: int|
        0 <= i < chars.len() && !(at <= i < at + inner.len()) implies text::is_white(
        #[trigger] chars[i],
    ) by {
        if i >= at + inner.len() {
            assert(white(start[i - at]));
            assert(start[i - at] == chars[i]);
        }
    }
    assert forall|i: int| 0 <= i < inner.len() implies #[trigger] inner[i] == chars[at + i] by {
        assert(inner[i] == start[i]);
        assert(start[i] == chars[at + i]);
    }
    assert(is_cut(chars, inner, at));
}

/// Whether a text is another from a place on, with nothing but white space around it.
pub open spec fn is_cut(chars: Seq<char>, inner: Seq<char>, at: int) -> bool {
    &&& 0 <= at && at + inner.len() <= chars.len()
    &&& forall|i: int| 0 <= i < inner.len() ==> #[trigger] inner[i] == chars[at + i]
    &&& forall|i: int|
        0 <= i < chars.len() && !(at <= i < at + inner.len()) ==> text::is_white(
            #[trigger] chars[i],
        )
}

proof fn lemma_trim_start(chars: Seq<char>)
    ensures
        ({
            let start = text::trim_start(chars);
            let at = chars.len() - start.len();
            &&& at >= 0
            &&& start.len() > 0 ==> !text::is_white(start[0])
            &&& forall|i: int| 0 <= i < at ==> text::is_white(#[trigger] chars[i])
            &&& forall|i: int| 0 <= i < start.len() ==> #[trigger] start[i] == chars[at + i]
        }),
    decreases chars.len(),
{
    if chars.len() > 0 && text::is_white(chars[0]) {
        let rest = chars.drop_first();
        lemma_trim_start(rest);
        let start = text::trim_start(chars);
        let at = chars.len() - start.len();
        assert forall|i: int| 0 <= i < at implies text::is_white(#[trigger] chars[i]) by {
            if i > 0 {
                assert(rest[i - 1] == chars[i]);
            }
        }
        assert forall|i: int| 0 <= i < start.len() implies #[trigger] start[i] == chars[at + i] by {
            assert(start[i] == rest[at - 1 + i]);
        }
    }
}

proof fn lemma_without_trailing(chars: Seq<char>, white: spec_fn(char) -> bool)
    ensures
        ({
            let kept = text::without_trailing(chars, white);
            &&& kept.len() <= chars.len()
            &&& kept.len() > 0 ==> !white(kept.last())
            &&& forall|i: int| kept.len() <= i < chars.len() ==> white(#[trigger] chars[i])
            &&& forall|i: int| 0 <= i < kept.len() ==> #[trigger] kept[i] == chars[i]
        }),
    decreases chars.len(),
{
    if chars.len() > 0 && white(chars.last()) {
        let rest = chars.drop_last();
        lemma_without_trailing(rest, white);
        let kept = text::without_trailing(chars, white);
        assert forall|i: int| kept.len() <= i < chars.len() implies white(#[trigger] chars[i]) by {
            if i < rest.len() {
                assert(rest[i] == chars[i]);
            }
        }
    }
}

/// Joined texts stand one behind the other, with the separator between them.
pub proof fn law_joined_texts_follow_each_other(
    parts: Seq<Seq<char>>,
    part: Seq<char>,
    separator: Seq<char>,
)
    ensures
        text::joined(Seq::empty(), separator) == Seq::<char>::empty(),
        text::joined(seq![part], separator) == part,
        parts.len() > 0 ==> text::joined(parts.push(part), separator) == text::joined(
            parts,
            separator,
        ) + separator + part,
{
    assert(parts.push(part).drop_last() =~= parts);
}

/// The text of a transaction id is the hexadecimal text of its bytes, the last byte first; that of an
/// output adds the number of the output, that of an asset two bytes for the group, low byte first.
pub proof fn law_ids_are_shown_backwards(id: Txid, output: OutPoint, asset: AssetId, i: int)
    requires
        0 <= i < 32,
    ensures
        id.text().len() == 64,
        text::hex_bytes(id.text()) matches Some(bytes) && bytes.len() == 32 && bytes[i]
            == id.bytes[31 - i],
        output.text() == output.txid.text() + seq![':'] + text::decimal_text(output.vout as nat),
        asset.text().len() == 68,
        asset.text().take(64) == asset.txid.text(),
        text::hex_bytes(asset.text().skip(64)) matches Some(bytes) && bytes.len() == 2 && bytes[0]
            + 256 * bytes[1] == asset.group_index,
{
    text::law_hex_round_trip(id.bytes@.reverse());
    law_hexadecimal_text_is_lower_case(id.bytes@.reverse(), 0);
    law_hexadecimal_text_is_lower_case(asset.txid.bytes@.reverse(), 0);
    let low = chain::u16_le(asset.group_index);
    law_hexadecimal_text_is_lower_case(low, 0);
    assert(asset.text().take(64) =~= asset.txid.text());
    assert(asset.text().skip(64) =~= text::hex_text(low));
    assert(low[0] + 256 * low[1] == asset.group_index);
}

/// A text of 32 bytes in hexadecimal, of either case, names the transaction with these bytes, last
/// byte first; one of 34 bytes names an asset: the id, and the group, low byte first. Other texts
/// name nothing.
pub proof fn law_assets_are_named_by_thirty_four_bytes(
    chars: Seq<char>,
    bytes: Seq<u8>,
    txid: Txid,
    asset: AssetId,
)
    requires
        text::hex_bytes(chars) == Some(bytes),
    ensures
        bytes.len() != 32 ==> Txid::of_text(chars) is None,
        bytes.len() == 32 && (forall|i: int| 0 <= i < 32 ==> #[trigger] bytes[i] == txid.bytes[31
            - i]) ==> Txid::of_text(chars) == Some(txid),
        bytes.len() != 34 ==> chain::asset_id_of(chars) is None,
        bytes.len() == 34 && (forall|i: int|
            0 <= i < 32 ==> #[trigger] bytes[i] == asset.txid.bytes[31 - i]) && bytes[32] + 256
            * bytes[33] == asset.group_index ==> chain::asset_id_of(chars) == Some(asset),
{
    if bytes.len() == 32 && (forall|i: int|
        0 <= i < 32 ==> #[trigger] bytes[i] == txid.bytes[31 - i]) {
        assert(bytes.reverse() =~= txid.bytes@);
        txid.lemma_of_bytes();
    }
    if bytes.len() == 34 && (forall|i: int|
        0 <= i < 32 ==> #[trigger] bytes[i] == asset.txid.bytes[31 - i]) && bytes[32] + 256
        * bytes[33] == asset.group_index {
        assert(bytes.take(32).reverse() =~= asset.txid.bytes@);
        assert(bytes.subrange(0, 32).reverse() =~= asset.txid.bytes@);
        asset.txid.lemma_of_bytes();
    }
}

/// A text that is not hexadecimal names nothing.
pub proof fn law_other_texts_name_nothing(chars: Seq<char>)
    requires
        chars.len() % 2 == 1 || exists|k: int|
            0 <= k < chars.len() && !is_digit(#[trigger] chars[k]),
    ensures
        Txid::of_text(chars) is None,
        chain::asset_id_of(chars) is None,
{
    law_two_digits_make_a_byte(chars, 0);
}

/// Ids are ordered by their bytes, outputs by their transaction and then by their number.
pub proof fn law_ids_are_ordered_by_bytes(a: Txid, b: Txid, v: u32, w: u32, k: int)
    ensures
        0 <= k < 32 && a.bytes@.take(k) == b.bytes@.take(k) && a.bytes[k] != b.bytes[k] ==> (
        a.before(b) <==> a.bytes[k] < b.bytes[k]),
        (OutPoint { txid: a, vout: v }).before(OutPoint { txid: a, vout: w }) <==> v < w,
        a != b ==> ((OutPoint { txid: a, vout: v }).before(OutPoint { txid: b, vout: w })
            <==> a.before(b)),
{
    lemma_bytes_difference(a.bytes@, b.bytes@, k);
    Txid::lemma_before_total(a, a);
    Txid::lemma_before_total(a, b);
}

/// A data script is `OP_RETURN`, a push of the shortest form, and the data.
pub proof fn law_data_is_pushed_in_the_shortest_form(data: Seq<u8>)
    ensures
        ({
            let n = data.len() as int;
            let bytes = script::op_return_bytes(data);
            &&& bytes[0] == 0x6a
            &&& n <= 75 ==> bytes.len() == n + 2 && bytes[1] == n && bytes.skip(2) == data
            &&& 76 <= n <= 255 ==> bytes.len() == n + 3 && bytes[1] == 76 && bytes[2] == n
                && bytes.skip(3) == data
            &&& 256 <= n <= 65_535 ==> bytes.len() == n + 4 && bytes[1] == 77 && bytes[2] + 256
                * bytes[3] == n && bytes.skip(4) == data
            &&& 65_536 <= n <= u32::MAX ==> bytes.len() == n + 6 && bytes[1] == 78 && bytes[2] + 256
                * bytes[3] + 65_536 * bytes[4] + 16_777_216 * bytes[5] == n && bytes.skip(6) == data
        }),
{
    let n = data.len() as int;
    let bytes = script::op_return_bytes(data);
    if n <= 75 {
        assert(bytes.skip(2) =~= data);
    } else if n <= 255 {
        assert(bytes.skip(3) =~= data);
    } else if n <= 65_535 {
        assert(bytes.skip(4) =~= data);
    } else if n <= u32::MAX {
        assert(bytes.skip(6) =~= data);
    }
}

/// A taproot script is version one and a push of 32 bytes; extensions start with `ARK`.
pub proof fn law_scripts_are_told_by_their_start(bytes: Seq<u8>)
    ensures
        script::is_taproot(bytes) <==> bytes.len() == 34 && bytes[0] == 0x51 && bytes[1] == 0x20,
        script::has_extension_magic(bytes) <==> bytes.len() >= 3 && bytes[0] == 65 && bytes[1] == 82
            && bytes[2] == 75,
{
}

/// Each key has its own bit in a mask, and only the main network has a name of its own.
pub proof fn law_keys_have_bits(w: bool, a: bool, s: bool, d: bool, network: Network)
    ensures
        (entry::mask_of(w, a, s, d) % 2 == 1) == w,
        (entry::mask_of(w, a, s, d) / 2 % 2 == 1) == a,
        (entry::mask_of(w, a, s, d) / 4 % 2 == 1) == s,
        (entry::mask_of(w, a, s, d) / 8 == 1) == d,
        entry::mask_of(w, a, s, d) <= 15,
        network == Network::Bitcoin ==> entry::label_of(network) == "mainnet"@,
        network != Network::Bitcoin ==> entry::label_of(network) == "signet"@,
{
}

} // verus!
