//! The textual wire form of the small records that travel with a file: a
//! JSON object whose members that count are strings. Members with other
//! values are passed over when an object is read.

use vstd::prelude::*;

verus! {

/// The byte `"`.
pub const QUOTE: u8 = 0x22;

/// The byte `\`.
pub const BACKSLASH: u8 = 0x5c;

/// The byte `{`.
pub const OPEN: u8 = 0x7b;

/// The byte `}`.
pub const CLOSE: u8 = 0x7d;

/// The byte `:`.
pub const COLON: u8 = 0x3a;

/// The byte `,`.
pub const COMMA: u8 = 0x2c;

/// A member of an object, as plain values: its key and its value.
pub type Pair = (Seq<u8>, Seq<u8>);

/// Whether `b` is white space between the tokens of an object.
pub open spec fn is_space(b: u8) -> bool {
    b == 0x20 || b == 0x09 || b == 0x0a || b == 0x0d
}

/// The lower-case hexadecimal digit of a value below sixteen.
pub open spec fn hex_digit(n: u8) -> u8 {
    if n < 10 {
        (0x30 + n) as u8
    } else {
        (0x57 + n) as u8
    }
}

/// The value of a hexadecimal digit of either case.
pub open spec fn hex_value(b: u8) -> Option<u8> {
    if 0x30 <= b <= 0x39 {
        Some((b - 0x30) as u8)
    } else if 0x61 <= b <= 0x66 {
        Some((b - 0x57) as u8)
    } else if 0x41 <= b <= 0x46 {
        Some((b - 0x37) as u8)
    } else {
        None
    }
}

/// The way one byte of a string is written: a quote and a backslash behind
/// a backslash, a control character as `\u00` and two digits, any other
/// byte as it is.
pub open spec fn escaped_byte(b: u8) -> Seq<u8> {
    if b == QUOTE || b == BACKSLASH {
        seq![BACKSLASH, b]
    } else if b < 0x20 {
        seq![BACKSLASH, 0x75, 0x30, 0x30, hex_digit(b >> 4), hex_digit(b & 0x0f)]
    } else {
        seq![b]
    }
}

/// The way the bytes of a string are written between its quotes.
pub open spec fn escaped(text: Seq<u8>) -> Seq<u8>
    decreases text.len(),
{
    if text.len() == 0 {
        Seq::empty()
    } else {
        escaped_byte(text[0]) + escaped(text.skip(1))
    }
}

/// A string as it is written: between quotes, escaped.
pub open spec fn quoted(text: Seq<u8>) -> Seq<u8> {
    seq![QUOTE] + escaped(text) + seq![QUOTE]
}

/// A member as it is written: key, colon, value.
pub open spec fn member_bytes(member: Pair) -> Seq<u8> {
    quoted(member.0) + seq![COLON] + quoted(member.1)
}

/// Members as they are written: one after the other, with commas between.
pub open spec fn members_bytes(members: Seq<Pair>) -> Seq<u8>
    decreases members.len(),
{
    if members.len() == 0 {
        Seq::empty()
    } else if members.len() == 1 {
        member_bytes(members[0])
    } else {
        member_bytes(members[0]) + seq![COMMA] + members_bytes(members.skip(1))
    }
}

/// An object as it is written: its members between braces, without white
/// space.
pub open spec fn object_bytes(members: Seq<Pair>) -> Seq<u8> {
    seq![OPEN] + members_bytes(members) + seq![CLOSE]
}

/// The UTF-8 bytes of a code point.
pub open spec fn code_point_bytes(cp: u32) -> Seq<u8> {
    if cp < 0x80 {
        seq![cp as u8]
    } else if cp < 0x800 {
        seq![(0xc0 | (cp >> 6)) as u8, (0x80 | (cp & 0x3f)) as u8]
    } else if cp < 0x10000 {
        seq![
            (0xe0 | (cp >> 12)) as u8,
            (0x80 | ((cp >> 6) & 0x3f)) as u8,
            (0x80 | (cp & 0x3f)) as u8,
        ]
    } else {
        seq![
            (0xf0 | (cp >> 18)) as u8,
            (0x80 | ((cp >> 12) & 0x3f)) as u8,
            (0x80 | ((cp >> 6) & 0x3f)) as u8,
            (0x80 | (cp & 0x3f)) as u8,
        ]
    }
}

/// The number that four hexadecimal digits at the head of `input` stand
/// for.
pub open spec fn hex4(input: Seq<u8>) -> Option<u32> {
    if input.len() < 4 {
        None
    } else {
        match (hex_value(input[0]), hex_value(input[1]), hex_value(input[2]), hex_value(input[3])) {
            (Some(a), Some(b), Some(c), Some(d)) => Some((a * 4096 + b * 256 + c * 16 + d) as u32),
            _ => None,
        }
    }
}

/// The code point that the escape at the head of `input` stands for,
/// `input` being what follows `\u`, and how many bytes the escape takes
/// from the `u` on: four digits stand for the code point of their number;
/// the digits of a high surrogate, followed by `\u` and the digits of a
/// low surrogate, stand for the code point above 0xffff that the pair
/// encodes. A surrogate that stands alone stands for nothing.
pub open spec fn code_point(input: Seq<u8>) -> Option<(u32, int)> {
    match hex4(input) {
        None => None,
        Some(first) => if 0xd800 <= first <= 0xdbff {
            if input.len() >= 10 && input[4] == BACKSLASH && input[5] == 0x75 {
                match hex4(input.skip(6)) {
                    Some(second) => if 0xdc00 <= second <= 0xdfff {
                        Some(
                            ((0x10000 + (first - 0xd800) * 0x400 + (second - 0xdc00)) as u32, 11),
                        )
                    } else {
                        None
                    },
                    None => None,
                }
            } else {
                None
            }
        } else if 0xdc00 <= first <= 0xdfff {
            None
        } else {
            Some((first, 5))
        },
    }
}

/// The bytes that the escape at the head of `input` stands for, `input`
/// being what follows a backslash, and how many bytes the escape takes.
#[verifier::opaque]
pub open spec fn escape(input: Seq<u8>) -> Option<(Seq<u8>, int)> {
    if input.len() == 0 {
        None
    } else if input[0] == QUOTE || input[0] == BACKSLASH || input[0] == 0x2f {
        Some((seq![input[0]], 1))
    } else if input[0] == 0x62 {
        Some((seq![0x08u8], 1))
    } else if input[0] == 0x66 {
        Some((seq![0x0cu8], 1))
    } else if input[0] == 0x6e {
        Some((seq![0x0au8], 1))
    } else if input[0] == 0x72 {
        Some((seq![0x0du8], 1))
    } else if input[0] == 0x74 {
        Some((seq![0x09u8], 1))
    } else if input[0] == 0x75 {
        match code_point(input.skip(1)) {
            Some(found) => Some((code_point_bytes(found.0), found.1)),
            None => None,
        }
    } else {
        None
    }
}

/// `parsed` with `head` put before its value.
pub open spec fn with_head(head: Seq<u8>, parsed: Option<(Seq<u8>, Seq<u8>)>) -> Option<
    (Seq<u8>, Seq<u8>),
> {
    match parsed {
        Some((text, rest)) => Some((head + text, rest)),
        None => None,
    }
}

/// Reads a string's bytes up to its closing quote, `input` being what
/// follows the opening quote: the string's value and what follows the
/// closing quote. A control character that is not escaped, an escape that
/// is none, and a missing closing quote give `None`.
pub open spec fn string_body(input: Seq<u8>) -> Option<(Seq<u8>, Seq<u8>)>
    decreases input.len(),
{
    if input.len() == 0 {
        None
    } else if input[0] == QUOTE {
        Some((Seq::empty(), input.skip(1)))
    } else if input[0] < 0x20 {
        None
    } else if input[0] == BACKSLASH {
        match escape(input.skip(1)) {
            Some((unit, taken)) => if 1 <= taken < input.len() {
                with_head(unit, string_body(input.skip(1 + taken)))
            } else {
                None
            },
            None => None,
        }
    } else {
        with_head(seq![input[0]], string_body(input.skip(1)))
    }
}

/// Reads a string at the head of `input`: its value and what follows it.
pub open spec fn string_at(input: Seq<u8>) -> Option<(Seq<u8>, Seq<u8>)> {
    if input.len() > 0 && input[0] == QUOTE {
        string_body(input.skip(1))
    } else {
        None
    }
}

/// `input` without the white space at its head.
pub open spec fn after_space(input: Seq<u8>) -> Seq<u8>
    decreases input.len(),
{
    if input.len() > 0 && is_space(input[0]) {
        after_space(input.skip(1))
    } else {
        input
    }
}

/// A member as it is read: its key, and the text of its value where the
/// value is a string.
pub type EntryView = (Seq<u8>, Option<Seq<u8>>);

/// Whether `b` ends a value that is neither a string nor in brackets.
pub open spec fn ends_scalar(b: u8) -> bool {
    b == COMMA || b == COLON || b == QUOTE || b == OPEN || b == CLOSE || b == 0x5b || b == 0x5d
        || is_space(b)
}

/// `input` without the bytes of a number or a word at its head.
pub open spec fn after_scalar(input: Seq<u8>) -> Seq<u8>
    decreases input.len(),
{
    if input.len() > 0 && !ends_scalar(input[0]) {
        after_scalar(input.skip(1))
    } else {
        input
    }
}

/// What follows the bracket that closes the `depth` brackets that stand
/// open before `input`. Strings are read as strings, so that a bracket in
/// one does not count.
#[verifier::opaque]
pub open spec fn after_nested(input: Seq<u8>, depth: nat) -> Option<Seq<u8>>
    decreases input.len(),
{
    if input.len() == 0 {
        None
    } else if input[0] == QUOTE {
        match string_at(input) {
            Some((_, rest)) => if rest.len() < input.len() {
                after_nested(rest, depth)
            } else {
                None
            },
            None => None,
        }
    } else if input[0] == OPEN || input[0] == 0x5b {
        after_nested(input.skip(1), depth + 1)
    } else if input[0] == CLOSE || input[0] == 0x5d {
        if depth <= 1 {
            Some(input.skip(1))
        } else {
            after_nested(input.skip(1), (depth - 1) as nat)
        }
    } else {
        after_nested(input.skip(1), depth)
    }
}

/// What follows the value at the head of `input` that is no string: an
/// array or an object is taken up to the bracket that closes it, a number
/// or a word up to the byte that ends it. Such a value is passed over, not
/// read: what stands in it is looked at for its strings and brackets
/// alone.
pub open spec fn other_value(input: Seq<u8>) -> Option<Seq<u8>> {
    if input.len() == 0 || input[0] == QUOTE {
        None
    } else if input[0] == OPEN || input[0] == 0x5b {
        after_nested(input.skip(1), 1)
    } else if ends_scalar(input[0]) {
        None
    } else {
        Some(after_scalar(input.skip(1)))
    }
}

/// Reads the value at the head of `input`: the text of a string, or
/// nothing for another value, and what follows the value.
pub open spec fn value_at(input: Seq<u8>) -> Option<(Option<Seq<u8>>, Seq<u8>)> {
    if input.len() > 0 && input[0] == QUOTE {
        match string_at(input) {
            Some((text, rest)) => Some((Some(text), rest)),
            None => None,
        }
    } else {
        match other_value(input) {
            Some(rest) => Some((None, rest)),
            None => None,
        }
    }
}

/// Reads a member at the head of `input`: the member and what follows it.
pub open spec fn member_at(input: Seq<u8>) -> Option<(EntryView, Seq<u8>)> {
    match string_at(input) {
        Some((key, rest)) => {
            let colon = after_space(rest);
            if colon.len() > 0 && colon[0] == COLON {
                match value_at(after_space(colon.skip(1))) {
                    Some((value, end)) => Some(((key, value), end)),
                    None => None,
                }
            } else {
                None
            }
        },
        None => None,
    }
}

/// Reads the members of an object up to its closing brace, `input`
/// standing at the first of them: the members and what follows the brace.
pub open spec fn members_at(input: Seq<u8>) -> Option<(Seq<EntryView>, Seq<u8>)>
    decreases input.len(),
{
    match member_at(input) {
        Some((member, rest)) => {
            let mark = after_space(rest);
            if mark.len() == 0 {
                None
            } else if mark[0] == CLOSE {
                Some((seq![member], mark.skip(1)))
            } else if mark[0] == COMMA {
                let next = after_space(mark.skip(1));
                if next.len() < input.len() {
                    match members_at(next) {
                        Some((others, end)) => Some((seq![member] + others, end)),
                        None => None,
                    }
                } else {
                    None
                }
            } else {
                None
            }
        },
        None => None,
    }
}

/// Reads `input` as one object: its members in the order in which they
/// stand, each with the text of its value where that is a string. White
/// space may stand around the braces, commas and colons; anything else
/// that is not such an object gives `None`.
pub open spec fn parsed_object(input: Seq<u8>) -> Option<Seq<EntryView>> {
    let open = after_space(input);
    if open.len() > 0 && open[0] == OPEN {
        let first = after_space(open.skip(1));
        let body = if first.len() > 0 && first[0] == CLOSE {
            Some((Seq::<EntryView>::empty(), first.skip(1)))
        } else {
            members_at(first)
        };
        match body {
            Some((members, end)) => if after_space(end).len() == 0 {
                Some(members)
            } else {
                None
            },
            None => None,
        }
    } else {
        None
    }
}

/// The members that string members are read as.
pub open spec fn as_read(members: Seq<Pair>) -> Seq<EntryView> {
    members.map_values(|member: Pair| (member.0, Some(member.1)))
}

/// How many members have the given key.
pub open spec fn occurrences(members: Seq<EntryView>, key: Seq<u8>) -> nat
    decreases members.len(),
{
    if members.len() == 0 {
        0
    } else {
        let here: nat = if members[0].0 == key {
            1
        } else {
            0
        };
        here + occurrences(members.skip(1), key)
    }
}

/// The value of the first member with the given key.
pub open spec fn field(members: Seq<EntryView>, key: Seq<u8>) -> Option<Option<Seq<u8>>>
    decreases members.len(),
{
    if members.len() == 0 {
        None
    } else if members[0].0 == key {
        Some(members[0].1)
    } else {
        field(members.skip(1), key)
    }
}

/// The digit of a value below sixteen stands for that value.
proof fn lemma_hex_digit_value(n: u8)
    requires
        n < 16,
    ensures
        hex_value(hex_digit(n)) == Some(n),
{
}

/// A byte as it is written, read again, is that byte.
proof fn lemma_escaped_byte_reads_back(b: u8, rest: Seq<u8>)
    ensures
        string_body(escaped_byte(b) + rest) == with_head(seq![b], string_body(rest)),
{
    let input = escaped_byte(b) + rest;
    reveal(escape);
    if b == QUOTE || b == BACKSLASH {
        assert(input.skip(1)[0] == b);
        assert(input.skip(1 + 1int) =~= rest);
    } else if b < 0x20 {
        let hi = b >> 4;
        let lo = b & 0x0f;
        assert(hi < 16 && lo < 16 && hi * 16 + lo == b) by (bit_vector)
            requires
                hi == b >> 4,
                lo == b & 0x0f,
                b < 0x20,
        ;
        lemma_hex_digit_value(hi);
        lemma_hex_digit_value(lo);
        let digits = input.skip(1).skip(1);
        assert(digits[0] == 0x30 && digits[1] == 0x30 && digits[2] == hex_digit(hi) && digits[3]
            == hex_digit(lo));
        assert(hex4(digits) == Some(b as u32));
        assert(code_point(digits) == Some((b as u32, 5int)));
        assert(code_point_bytes(b as u32) =~= seq![b]);
        assert(input.skip(1)[0] == 0x75);
        assert(input.skip(1 + 5int) =~= rest);
    } else {
        assert(input.skip(1) =~= rest);
    }
}

/// A string's bytes as they are written, read again up to the closing
/// quote, are the string's bytes, and what followed the quote is left.
pub proof fn lemma_escaped_reads_back(text: Seq<u8>, rest: Seq<u8>)
    ensures
        string_body(escaped(text) + seq![QUOTE] + rest) == Some((text, rest)),
    decreases text.len(),
{
    let input = escaped(text) + seq![QUOTE] + rest;
    if text.len() == 0 {
        assert(input.skip(1) =~= rest);
        assert(text =~= Seq::<u8>::empty());
    } else {
        let tail = escaped(text.skip(1)) + seq![QUOTE] + rest;
        assert(input =~= escaped_byte(text[0]) + tail);
        lemma_escaped_byte_reads_back(text[0], tail);
        lemma_escaped_reads_back(text.skip(1), rest);
        assert(seq![text[0]] + text.skip(1) =~= text);
    }
}

/// A string as it is written, read again, is that string.
pub proof fn lemma_quoted_reads_back(text: Seq<u8>, rest: Seq<u8>)
    ensures
        string_at(quoted(text) + rest) == Some((text, rest)),
        (quoted(text) + rest).len() > 0,
        (quoted(text) + rest)[0] == QUOTE,
{
    let input = quoted(text) + rest;
    assert(input.skip(1) =~= escaped(text) + seq![QUOTE] + rest);
    lemma_escaped_reads_back(text, rest);
}

/// A member as it is written, read again, is that member.
pub proof fn lemma_member_reads_back(member: Pair, rest: Seq<u8>)
    ensures
        member_at(member_bytes(member) + rest) == Some(((member.0, Some(member.1)), rest)),
        (member_bytes(member) + rest).len() > 0,
        (member_bytes(member) + rest)[0] == QUOTE,
{
    let input = member_bytes(member) + rest;
    let colon = seq![COLON] + quoted(member.1) + rest;
    assert(input =~= quoted(member.0) + colon);
    lemma_quoted_reads_back(member.0, colon);
    assert(colon.skip(1) =~= quoted(member.1) + rest);
    lemma_quoted_reads_back(member.1, rest);
}

/// Members as they are written, read again up to the closing brace, are
/// those members.
pub proof fn lemma_members_read_back(members: Seq<Pair>, rest: Seq<u8>)
    requires
        members.len() > 0,
    ensures
        members_at(members_bytes(members) + seq![CLOSE] + rest) == Some((as_read(members), rest)),
        (members_bytes(members) + seq![CLOSE] + rest).len() > 0,
        (members_bytes(members) + seq![CLOSE] + rest)[0] == QUOTE,
    decreases members.len(),
{
    let input = members_bytes(members) + seq![CLOSE] + rest;
    if members.len() == 1 {
        let mark = seq![CLOSE] + rest;
        assert(input =~= member_bytes(members[0]) + mark);
        lemma_member_reads_back(members[0], mark);
        assert(mark.skip(1) =~= rest);
        assert(seq![(members[0].0, Some(members[0].1))] =~= as_read(members));
    } else {
        let next = members_bytes(members.skip(1)) + seq![CLOSE] + rest;
        let mark = seq![COMMA] + next;
        assert(input =~= member_bytes(members[0]) + mark);
        lemma_member_reads_back(members[0], mark);
        assert(mark.skip(1) =~= next);
        lemma_members_read_back(members.skip(1), rest);
        assert(seq![(members[0].0, Some(members[0].1))] + as_read(members.skip(1)) =~= as_read(
            members,
        ));
    }
}

/// An object as it is written, read again, is that object: the same
/// members in the same order.
pub proof fn lemma_object_reads_back(members: Seq<Pair>)
    ensures
        parsed_object(object_bytes(members)) == Some(as_read(members)),
{
    let input = object_bytes(members);
    if members.len() == 0 {
        assert(input.skip(1) =~= seq![CLOSE]);
        assert(input.skip(1).skip(1) =~= Seq::<u8>::empty());
        assert(as_read(members) =~= Seq::<EntryView>::empty());
    } else {
        let first = members_bytes(members) + seq![CLOSE] + Seq::<u8>::empty();
        assert(input.skip(1) =~= first);
        lemma_members_read_back(members, Seq::empty());
    }
}

/// A member of an object: its key and its value, both as UTF-8 bytes.
#[derive(Debug)]
pub struct Member {
    pub key: Vec<u8>,
    pub value: Vec<u8>,
}

impl View for Member {
    type V = Pair;

    open spec fn view(&self) -> Pair {
        (self.key@, self.value@)
    }
}

/// What members hold, as plain values.
pub open spec fn pairs(members: Seq<Member>) -> Seq<Pair> {
    members.map_values(|member: Member| member@)
}

/// A member of an object as it was read: its key, and its value where
/// that is a string, both as UTF-8 bytes.
#[derive(Debug)]
pub struct Entry {
    pub key: Vec<u8>,
    pub value: Option<Vec<u8>>,
}

impl View for Entry {
    type V = EntryView;

    open spec fn view(&self) -> EntryView {
        (
            self.key@,
            match self.value {
                Some(text) => Some(text@),
                None => None,
            },
        )
    }
}

/// What read members hold, as plain values.
pub open spec fn entries(members: Seq<Entry>) -> Seq<EntryView> {
    members.map_values(|member: Entry| member@)
}

/// `parsed` with the members `head` put before its members.
pub open spec fn with_members(head: Seq<EntryView>, parsed: Option<(Seq<EntryView>, Seq<u8>)>) -> Option<
    (Seq<EntryView>, Seq<u8>),
> {
    match parsed {
        Some((members, rest)) => Some((head + members, rest)),
        None => None,
    }
}

fn hex_digit_of(n: u8) -> (digit: u8)
    requires
        n < 16,
    ensures
        digit == hex_digit(n),
{
    if n < 10 {
        0x30 + n
    } else {
        0x57 + n
    }
}

fn hex_value_of(b: u8) -> (value: Option<u8>)
    ensures
        value == hex_value(b),
        value matches Some(v) ==> v < 16,
{
    if 0x30 <= b && b <= 0x39 {
        Some(b - 0x30)
    } else if 0x61 <= b && b <= 0x66 {
        Some(b - 0x57)
    } else if 0x41 <= b && b <= 0x46 {
        Some(b - 0x37)
    } else {
        None
    }
}

/// Writes `text` as a string behind what `out` holds.
pub fn write_string(out: &mut Vec<u8>, text: &[u8])
    ensures
        final(out)@ == old(out)@ + quoted(text@),
{
    out.push(QUOTE);
    let mut i: usize = 0;
    assert(text@.skip(0) =~= text@);
    while i < text.len()
        invariant
            i <= text.len(),
            old(out)@ + seq![QUOTE] + escaped(text@) == out@ + escaped(text@.skip(i as int)),
        decreases text.len() - i,
    {
        let b = text[i];
        let ghost before = out@;
        let ghost tail = escaped(text@.skip(i + 1));
        assert(text@.skip(i as int).skip(1) =~= text@.skip(i + 1));
        if b == QUOTE || b == BACKSLASH {
            out.push(BACKSLASH);
            out.push(b);
        } else if b < 0x20 {
            let hi = b >> 4;
            let lo = b & 0x0f;
            assert(hi < 16 && lo < 16) by (bit_vector)
                requires
                    hi == b >> 4,
                    lo == b & 0x0f,
            ;
            out.push(BACKSLASH);
            out.push(0x75);
            out.push(0x30);
            out.push(0x30);
            out.push(hex_digit_of(hi));
            out.push(hex_digit_of(lo));
        } else {
            out.push(b);
        }
        assert(out@ =~= before + escaped_byte(b));
        assert(before + (escaped_byte(b) + tail) =~= out@ + tail);
        i = i + 1;
    }
    assert(escaped(text@.skip(i as int)) =~= Seq::<u8>::empty());
    out.push(QUOTE);
    assert(final(out)@ =~= old(out)@ + quoted(text@));
}

/// Writes the members as one object.
pub fn write_object(members: &Vec<Member>) -> (out: Vec<u8>)
    ensures
        out@ == object_bytes(pairs(members@)),
{
    let mut out: Vec<u8> = Vec::new();
    out.push(OPEN);
    let ghost all = pairs(members@);
    let mut i: usize = 0;
    assert(all.skip(0) =~= all);
    while i < members.len()
        invariant
            i <= members.len(),
            all == pairs(members@),
            seq![OPEN] + members_bytes(all) == out@ + members_bytes(all.skip(i as int)),
        decreases members.len() - i,
    {
        let ghost before = out@;
        let ghost rest = all.skip(i as int);
        assert(rest.skip(1) =~= all.skip(i + 1));
        assert(rest[0] == members@[i as int]@);
        write_string(&mut out, members[i].key.as_slice());
        out.push(COLON);
        write_string(&mut out, members[i].value.as_slice());
        assert(out@ =~= before + member_bytes(rest[0]));
        if i + 1 < members.len() {
            out.push(COMMA);
            assert(before + (member_bytes(rest[0]) + seq![COMMA] + members_bytes(rest.skip(1)))
                =~= out@ + members_bytes(rest.skip(1)));
        } else {
            assert(rest.len() == 1);
            assert(members_bytes(rest.skip(1)) =~= Seq::<u8>::empty());
            assert(before + member_bytes(rest[0]) =~= out@ + members_bytes(rest.skip(1)));
        }
        i = i + 1;
    }
    assert(members_bytes(all.skip(i as int)) =~= Seq::<u8>::empty());
    out.push(CLOSE);
    assert(out@ =~= object_bytes(all));
    out
}

/// Moves past the white space that stands at `pos`. A position behind the
/// end is left as it is.
pub fn skip_space(bytes: &[u8], pos: usize) -> (next: usize)
    ensures
        pos <= bytes.len() ==> pos <= next <= bytes.len() && after_space(bytes@.skip(pos as int))
            == bytes@.skip(next as int),
        pos > bytes.len() ==> next == pos,
{
    if pos > bytes.len() {
        return pos;
    }
    let mut i = pos;
    while i < bytes.len() && (bytes[i] == 0x20 || bytes[i] == 0x09 || bytes[i] == 0x0a || bytes[i]
        == 0x0d)
        invariant
            pos <= i <= bytes.len(),
            after_space(bytes@.skip(pos as int)) == after_space(bytes@.skip(i as int)),
        decreases bytes.len() - i,
    {
        assert(bytes@.skip(i as int).skip(1) =~= bytes@.skip(i + 1));
        i = i + 1;
    }
    i
}

/// Reads four hexadecimal digits that stand at `pos`.
fn hex4_of(bytes: &[u8], pos: usize) -> (res: Option<u32>)
    requires
        pos <= bytes.len(),
    ensures
        res == hex4(bytes@.skip(pos as int)),
        res matches Some(value) ==> value <= 0xffff && pos + 4 <= bytes.len(),
{
    if bytes.len() - pos < 4 {
        return None;
    }
    let ghost digits = bytes@.skip(pos as int);
    assert(digits[0] == bytes@[pos + 0] && digits[1] == bytes@[pos + 1] && digits[2] == bytes@[pos
        + 2] && digits[3] == bytes@[pos + 3]);
    match (
        hex_value_of(bytes[pos]),
        hex_value_of(bytes[pos + 1]),
        hex_value_of(bytes[pos + 2]),
        hex_value_of(bytes[pos + 3]),
    ) {
        (Some(a), Some(b), Some(c), Some(d)) => Some(
            (a as u32) * 4096 + (b as u32) * 256 + (c as u32) * 16 + (d as u32),
        ),
        _ => None,
    }
}

/// Reads the escape that follows a backslash and stands at `pos`, and puts
/// the bytes that it stands for behind what `out` holds. The result is the
/// number of bytes that the escape takes.
fn read_escape(bytes: &[u8], pos: usize, out: &mut Vec<u8>) -> (res: Option<usize>)
    requires
        pos <= bytes.len(),
    ensures
        match res {
            Some(taken) => {
                &&& 1 <= taken
                &&& pos + taken <= bytes.len()
                &&& escape(bytes@.skip(pos as int)) matches Some(found)
                &&& found.1 == taken
                &&& final(out)@ == old(out)@ + found.0
            },
            None => escape(bytes@.skip(pos as int)) is None && final(out)@ == old(out)@,
        },
{
    let ghost input = bytes@.skip(pos as int);
    proof {
        reveal(escape);
    }
    if pos >= bytes.len() {
        return None;
    }
    let b = bytes[pos];
    assert(input[0] == b);
    let unit: u8 = if b == QUOTE || b == BACKSLASH || b == 0x2f {
        b
    } else if b == 0x62 {
        0x08
    } else if b == 0x66 {
        0x0c
    } else if b == 0x6e {
        0x0a
    } else if b == 0x72 {
        0x0d
    } else if b == 0x74 {
        0x09
    } else if b == 0x75 {
        let ghost digits = input.skip(1);
        assert(digits =~= bytes@.skip(pos + 1));
        let first = match hex4_of(bytes, pos + 1) {
            Some(first) => first,
            None => {
                return None;
            },
        };
        let (cp, taken): (u32, usize) = if 0xd800 <= first && first <= 0xdbff {
            if bytes.len() - pos < 11 || bytes[pos + 5] != BACKSLASH || bytes[pos + 6] != 0x75 {
                return None;
            }
            assert(digits[4] == bytes@[pos + 5] && digits[5] == bytes@[pos + 6]);
            assert(digits.skip(6) =~= bytes@.skip(pos + 7));
            let second = match hex4_of(bytes, pos + 7) {
                Some(second) => second,
                None => {
                    return None;
                },
            };
            if second < 0xdc00 || second > 0xdfff {
                return None;
            }
            (0x10000 + (first - 0xd800) * 0x400 + (second - 0xdc00), 11)
        } else if 0xdc00 <= first && first <= 0xdfff {
            return None;
        } else {
            (first, 5)
        };
        let ghost before = out@;
        if cp < 0x80 {
            out.push(cp as u8);
        } else if cp < 0x800 {
            out.push((0xc0 | (cp >> 6)) as u8);
            out.push((0x80 | (cp & 0x3f)) as u8);
        } else if cp < 0x10000 {
            out.push((0xe0 | (cp >> 12)) as u8);
            out.push((0x80 | ((cp >> 6) & 0x3f)) as u8);
            out.push((0x80 | (cp & 0x3f)) as u8);
        } else {
            out.push((0xf0 | (cp >> 18)) as u8);
            out.push((0x80 | ((cp >> 12) & 0x3f)) as u8);
            out.push((0x80 | ((cp >> 6) & 0x3f)) as u8);
            out.push((0x80 | (cp & 0x3f)) as u8);
        }
        assert(out@ =~= before + code_point_bytes(cp));
        return Some(taken);
    } else {
        return None;
    };
    let ghost before = out@;
    out.push(unit);
    assert(out@ =~= before + seq![unit]);
    Some(1)
}

/// Reads the string that stands at `pos`: its value, and the position
/// behind its closing quote. Nothing stands behind the end.
pub fn read_string(bytes: &[u8], pos: usize) -> (res: Option<(Vec<u8>, usize)>)
    ensures
        match res {
            Some(found) => pos < found.1 <= bytes.len() && string_at(bytes@.skip(pos as int))
                == Some((found.0@, bytes@.skip(found.1 as int))),
            None => pos > bytes.len() || string_at(bytes@.skip(pos as int)) is None,
        },
{
    if pos >= bytes.len() || bytes[pos] != QUOTE {
        return None;
    }
    let ghost body = bytes@.skip(pos + 1);
    assert(bytes@.skip(pos as int).skip(1) =~= body);
    let mut text: Vec<u8> = Vec::new();
    let mut i: usize = pos + 1;
    assert(Seq::<u8>::empty() + (string_body(body)->0).0 =~= (string_body(body)->0).0);
    while i < bytes.len()
        invariant
            pos < i <= bytes.len(),
            body == bytes@.skip(pos + 1),
            string_at(bytes@.skip(pos as int)) == string_body(body),
            string_body(body) == with_head(text@, string_body(bytes@.skip(i as int))),
        decreases bytes.len() - i,
    {
        let b = bytes[i];
        let ghost input = bytes@.skip(i as int);
        let ghost before = text@;
        assert(input[0] == b);
        assert(input.skip(1) =~= bytes@.skip(i + 1));
        if b == QUOTE {
            assert(before + Seq::<u8>::empty() =~= before);
            return Some((text, i + 1));
        } else if b < 0x20 {
            return None;
        } else if b == BACKSLASH {
            match read_escape(bytes, i + 1, &mut text) {
                Some(taken) => {
                    proof {
                        let unit = (escape(input.skip(1))->0).0;
                        assert(input.skip(1 + taken) =~= bytes@.skip(i + 1 + taken));
                        let later = string_body(bytes@.skip(i + 1 + taken));
                        if let Some((value, rest)) = later {
                            assert(before + (unit + value) =~= text@ + value);
                        }
                    }
                    i = i + 1 + taken;
                },
                None => {
                    return None;
                },
            }
        } else {
            text.push(b);
            proof {
                let later = string_body(bytes@.skip(i + 1));
                if let Some((value, rest)) = later {
                    assert(before + (seq![b] + value) =~= text@ + value);
                }
            }
            i = i + 1;
        }
    }
    None
}

/// Moves past the value that stands at `pos` and is no string: an array
/// or an object up to the bracket that closes it, a number or a word up to
/// the byte that ends it.
pub fn skip_value(bytes: &[u8], pos: usize) -> (res: Option<usize>)
    ensures
        match res {
            Some(next) => pos < next <= bytes.len() && other_value(bytes@.skip(pos as int))
                == Some(bytes@.skip(next as int)),
            None => pos > bytes.len() || other_value(bytes@.skip(pos as int)) is None,
        },
{
    if pos >= bytes.len() {
        return None;
    }
    let first = bytes[pos];
    assert(bytes@.skip(pos as int)[0] == first);
    assert(bytes@.skip(pos as int).skip(1) =~= bytes@.skip(pos + 1));
    if first == QUOTE {
        return None;
    }
    let mut i: usize = pos + 1;
    if first == OPEN || first == 0x5b {
        let mut depth: usize = 1;
        loop
            invariant
                pos < i <= bytes.len(),
                1 <= depth <= i,
                other_value(bytes@.skip(pos as int)) == after_nested(
                    bytes@.skip(i as int),
                    depth as nat,
                ),
            decreases bytes.len() - i,
        {
            proof {
                reveal(after_nested);
            }
            if i >= bytes.len() {
                return None;
            }
            let b = bytes[i];
            assert(bytes@.skip(i as int)[0] == b);
            assert(bytes@.skip(i as int).skip(1) =~= bytes@.skip(i + 1));
            if b == QUOTE {
                match read_string(bytes, i) {
                    Some((_, next)) => {
                        i = next;
                    },
                    None => {
                        return None;
                    },
                }
            } else if b == OPEN || b == 0x5b {
                depth = depth + 1;
                i = i + 1;
            } else if b == CLOSE || b == 0x5d {
                if depth <= 1 {
                    return Some(i + 1);
                }
                depth = depth - 1;
                i = i + 1;
            } else {
                i = i + 1;
            }
        }
    }
    if first == COMMA || first == COLON || first == CLOSE || first == 0x5d || first == 0x20
        || first == 0x09 || first == 0x0a || first == 0x0d {
        return None;
    }
    while i < bytes.len() && !(bytes[i] == COMMA || bytes[i] == COLON || bytes[i] == QUOTE
        || bytes[i] == OPEN || bytes[i] == CLOSE || bytes[i] == 0x5b || bytes[i] == 0x5d
        || bytes[i] == 0x20 || bytes[i] == 0x09 || bytes[i] == 0x0a || bytes[i] == 0x0d)
        invariant
            pos < i <= bytes.len(),
            after_scalar(bytes@.skip(pos + 1)) == after_scalar(bytes@.skip(i as int)),
        decreases bytes.len() - i,
    {
        assert(bytes@.skip(i as int).skip(1) =~= bytes@.skip(i + 1));
        i = i + 1;
    }
    Some(i)
}

/// Reads the value that stands at `pos`: the text of a string, or nothing
/// for another value, and the position behind the value.
pub fn read_value(bytes: &[u8], pos: usize) -> (res: Option<(Option<Vec<u8>>, usize)>)
    ensures
        match res {
            Some(found) => pos < found.1 <= bytes.len() && value_at(bytes@.skip(pos as int))
                == Some(
                (
                    match found.0 {
                        Some(text) => Some(text@),
                        None => None,
                    },
                    bytes@.skip(found.1 as int),
                ),
            ),
            None => pos > bytes.len() || value_at(bytes@.skip(pos as int)) is None,
        },
{
    if pos >= bytes.len() {
        return None;
    }
    assert(bytes@.skip(pos as int)[0] == bytes@[pos as int]);
    if bytes[pos] == QUOTE {
        match read_string(bytes, pos) {
            Some((text, next)) => Some((Some(text), next)),
            None => None,
        }
    } else {
        match skip_value(bytes, pos) {
            Some(next) => Some((None, next)),
            None => None,
        }
    }
}

/// Reads the member that stands at `pos`, and the position behind it.
/// Nothing stands behind the end.
pub fn read_member(bytes: &[u8], pos: usize) -> (res: Option<(Entry, usize)>)
    ensures
        match res {
            Some(found) => pos < found.1 <= bytes.len() && member_at(bytes@.skip(pos as int))
                == Some((found.0@, bytes@.skip(found.1 as int))),
            None => pos > bytes.len() || member_at(bytes@.skip(pos as int)) is None,
        },
{
    if pos > bytes.len() {
        return None;
    }
    let (key, after_key) = match read_string(bytes, pos) {
        Some(found) => found,
        None => {
            return None;
        },
    };
    let colon = skip_space(bytes, after_key);
    if colon >= bytes.len() || bytes[colon] != COLON {
        return None;
    }
    assert(bytes@.skip(colon as int).skip(1) =~= bytes@.skip(colon + 1));
    let start = skip_space(bytes, colon + 1);
    match read_value(bytes, start) {
        Some((value, end)) => Some((Entry { key, value }, end)),
        None => None,
    }
}

/// Reads the members that stand at `pos` up to the closing brace, and the
/// position behind the brace. Nothing stands behind the end.
pub fn read_members(bytes: &[u8], pos: usize) -> (res: Option<(Vec<Entry>, usize)>)
    ensures
        match res {
            Some(found) => pos < found.1 <= bytes.len() && members_at(bytes@.skip(pos as int))
                == Some((entries(found.0@), bytes@.skip(found.1 as int))),
            None => pos > bytes.len() || members_at(bytes@.skip(pos as int)) is None,
        },
{
    if pos > bytes.len() {
        return None;
    }
    let mut members: Vec<Entry> = Vec::new();
    let mut at: usize = pos;
    let ghost whole = members_at(bytes@.skip(pos as int));
    assert(entries(members@) =~= Seq::<EntryView>::empty());
    assert(Seq::<EntryView>::empty() + (whole->0).0 =~= (whole->0).0);
    loop
        invariant
            pos <= at <= bytes.len(),
            whole == members_at(bytes@.skip(pos as int)),
            whole == with_members(entries(members@), members_at(bytes@.skip(at as int))),
        decreases bytes.len() - at,
    {
        let ghost before = entries(members@);
        let (member, after_member) = match read_member(bytes, at) {
            Some(found) => found,
            None => {
                return None;
            },
        };
        let mark = skip_space(bytes, after_member);
        if mark >= bytes.len() {
            return None;
        }
        assert(bytes@.skip(mark as int).skip(1) =~= bytes@.skip(mark + 1));
        if bytes[mark] == CLOSE {
            members.push(member);
            assert(entries(members@) =~= before + seq![member@]);
            return Some((members, mark + 1));
        } else if bytes[mark] == COMMA {
            let next = skip_space(bytes, mark + 1);
            members.push(member);
            proof {
                assert(entries(members@) =~= before + seq![member@]);
                let later = members_at(bytes@.skip(next as int));
                if let Some((others, rest)) = later {
                    assert(before + (seq![member@] + others) =~= entries(members@) + others);
                }
            }
            at = next;
        } else {
            return None;
        }
    }
}

/// Reads `bytes` as one object: its members, each with the text of its
/// value where that is a string.
pub fn read_object(bytes: &[u8]) -> (res: Option<Vec<Entry>>)
    ensures
        match res {
            Some(members) => parsed_object(bytes@) == Some(entries(members@)),
            None => parsed_object(bytes@) is None,
        },
{
    assert(bytes@.skip(0) =~= bytes@);
    let open = skip_space(bytes, 0);
    if open >= bytes.len() || bytes[open] != OPEN {
        return None;
    }
    assert(bytes@.skip(open as int).skip(1) =~= bytes@.skip(open + 1));
    let first = skip_space(bytes, open + 1);
    let (members, end) = if first < bytes.len() && bytes[first] == CLOSE {
        assert(bytes@.skip(first as int).skip(1) =~= bytes@.skip(first + 1));
        let none: Vec<Entry> = Vec::new();
        assert(entries(none@) =~= Seq::<EntryView>::empty());
        (none, first + 1)
    } else {
        match read_members(bytes, first) {
            Some(found) => found,
            None => {
                return None;
            },
        }
    };
    let last = skip_space(bytes, end);
    if last == bytes.len() {
        Some(members)
    } else {
        None
    }
}

/// Whether two byte strings are the same.
pub fn same_bytes(a: &[u8], b: &[u8]) -> (same: bool)
    ensures
        same == (a@ == b@),
{
    if a.len() != b.len() {
        return false;
    }
    let mut i: usize = 0;
    while i < a.len()
        invariant
            i <= a.len(),
            a.len() == b.len(),
            forall|j: int| 0 <= j < i ==> a@[j] == b@[j],
        decreases a.len() - i,
    {
        if a[i] != b[i] {
            return false;
        }
        i = i + 1;
    }
    assert(a@ =~= b@);
    true
}

/// The text of the member with the given key, if there is one such member
/// and no more, and its value is a string of UTF-8 text.
pub open spec fn text_field(members: Seq<EntryView>, key: Seq<u8>) -> Option<Seq<char>> {
    if occurrences(members, key) == 1 {
        match field(members, key) {
            Some(Some(value)) => if vstd::utf8::valid_utf8(value) {
                Some(vstd::utf8::decode_utf8(value))
            } else {
                None
            },
            _ => None,
        }
    } else {
        None
    }
}

/// The texts that the object `bytes` holds under three keys, if it is an
/// object and holds a text under each.
pub open spec fn three_texts(bytes: Seq<u8>, first: Seq<u8>, second: Seq<u8>, third: Seq<u8>) -> Option<
    (Seq<char>, Seq<char>, Seq<char>),
> {
    match parsed_object(bytes) {
        Some(members) => match (
            text_field(members, first),
            text_field(members, second),
            text_field(members, third),
        ) {
            (Some(a), Some(b), Some(c)) => Some((a, b, c)),
            _ => None,
        },
        None => None,
    }
}

/// Finds the text of the member with the given key. A key that stands
/// twice has no text, nor has a value that is no string.
pub fn find_text(members: &Vec<Entry>, key: &[u8]) -> (res: Option<String>)
    ensures
        match res {
            Some(text) => text_field(entries(members@), key@) == Some(text@),
            None => text_field(entries(members@), key@) is None,
        },
{
    let ghost all = entries(members@);
    let mut seen: usize = 0;
    let mut first: usize = 0;
    let mut i: usize = 0;
    assert(all.skip(0) =~= all);
    while i < members.len()
        invariant
            i <= members.len(),
            all == entries(members@),
            seen <= i,
            occurrences(all, key@) == seen + occurrences(all.skip(i as int), key@),
            seen > 0 ==> first < i && field(all, key@) == Some(all[first as int].1),
            seen == 0 ==> field(all, key@) == field(all.skip(i as int), key@),
        decreases members.len() - i,
    {
        assert(all.skip(i as int).skip(1) =~= all.skip(i + 1));
        assert(all.skip(i as int)[0] == members@[i as int]@);
        if same_bytes(members[i].key.as_slice(), key) {
            if seen == 0 {
                first = i;
            }
            seen = seen + 1;
        }
        i = i + 1;
    }
    if seen != 1 {
        return None;
    }
    assert(all[first as int] == members@[first as int]@);
    match &members[first].value {
        Some(value) => text_of(vstd::slice::slice_to_vec(value.as_slice())),
        None => None,
    }
}

/// Reads `bytes` as one object and finds the texts that it holds under
/// three keys. Members under other keys are passed over, whatever their
/// values; a key of the three that stands twice, or whose value is no
/// string, makes the whole unreadable.
pub fn read_three(bytes: &[u8], first: &[u8], second: &[u8], third: &[u8]) -> (res: Option<
    (String, String, String),
>)
    ensures
        match res {
            Some(found) => three_texts(bytes@, first@, second@, third@) == Some(
                (found.0@, found.1@, found.2@),
            ),
            None => three_texts(bytes@, first@, second@, third@) is None,
        },
{
    let members = match read_object(bytes) {
        Some(members) => members,
        None => {
            return None;
        },
    };
    let found = (find_text(&members, first), find_text(&members, second), find_text(&members, third));
    match found {
        (Some(a), Some(b), Some(c)) => Some((a, b, c)),
        _ => None,
    }
}

/// The bytes of a text of ASCII characters.
pub open spec fn ascii(text: Seq<char>) -> Seq<u8> {
    text.map_values(|c: char| c as u8)
}

/// The UTF-8 bytes of a text; of an ASCII text, one byte for each
/// character.
pub fn ascii_bytes(text: &str) -> (bytes: Vec<u8>)
    ensures
        bytes@ == vstd::utf8::encode_utf8(text@),
        text.is_ascii() ==> bytes@ == ascii(text@),
{
    let bytes = text.as_bytes_vec();
    proof {
        if text.is_ascii() {
            vstd::string::is_ascii_spec_bytes(text);
            assert(bytes@ =~= ascii(text@));
        }
    }
    bytes
}

/// Reads bytes as UTF-8 text.
///
/// Trusted: calls `String::from_utf8`. The contract claims that the call
/// succeeds on the byte strings that are valid UTF-8 and on no others, and
/// that the text is then the one that the bytes encode.
#[verifier::external_body]
pub(crate) fn text_of(bytes: Vec<u8>) -> (res: Option<String>)
    ensures
        match res {
            Some(text) => vstd::utf8::valid_utf8(bytes@) && text@ == vstd::utf8::decode_utf8(bytes@),
            None => !vstd::utf8::valid_utf8(bytes@),
        },
{
    String::from_utf8(bytes).ok()
}

} // verus!
