//! Which expressions are handed to the engine's compiler.
//!
//! The engine parses by recursive descent, and at three places it tries every
//! alternative in full before it chooses. Each level of brackets therefore
//! costs stack and can double the running time. In an unoptimised build a
//! level of brackets takes well over a hundred kilobytes of stack: sixteen
//! levels exhaust the two megabytes that a thread has by default, and the
//! process is aborted. This is a limit of the machine, so an input with an
//! expression beyond it is refused as invalid input, before anything is
//! evaluated. It is not treated as an expression that does not compile.
//!
//! Nesting is measured on the bytes of the text, and never too low. Brackets
//! inside a string literal do not count. After an opener of a comment or of a
//! braced URI literal outside a string literal, quotes no longer tell where a
//! literal ends: from there on every opening bracket counts and none is
//! taken as closed.

use vstd::prelude::*;
use vstd::string::StringSliceAdditionalSpecFns;

verus! {

/// The longest expression that is admitted, in bytes.
pub const MAX_LENGTH: usize = 2048;

/// The deepest nesting of brackets that is admitted.
pub const MAX_DEPTH: usize = 8;

/// What a scan of a text has seen so far.
pub struct Scan {
    /// How many brackets are open, at most.
    pub depth: nat,
    /// The most brackets that were open at once.
    pub deepest: nat,
    /// The quote that opened the string literal being read, or 0 outside one.
    pub quote: u8,
    /// The byte read last, or 0 at the start.
    pub last: u8,
    /// Whether a comment or a braced URI literal was opened outside a string
    /// literal.
    pub unsure: bool,
}

/// Whether a byte opens a bracket: `(`, `[` or `{`.
pub open spec fn opens(byte: u8) -> bool {
    byte == 40 || byte == 91 || byte == 123
}

/// Whether a byte closes a bracket: `)`, `]` or `}`.
pub open spec fn closes(byte: u8) -> bool {
    byte == 41 || byte == 93 || byte == 125
}

/// Whether a byte is a quote: `'` or `"`.
pub open spec fn quotes(byte: u8) -> bool {
    byte == 39 || byte == 34
}

/// Whether two bytes in a row open a comment, `(:`, or a braced URI literal,
/// `Q{`.
pub open spec fn unscannable(last: u8, byte: u8) -> bool {
    (last == 40 && byte == 58) || (last == 81 && byte == 123)
}

/// The scan before any byte is read.
pub open spec fn fresh() -> Scan {
    Scan { depth: 0, deepest: 0, quote: 0, last: 0, unsure: false }
}

/// A scan with one more bracket open.
pub open spec fn opened(scan: Scan) -> Scan {
    Scan {
        depth: scan.depth + 1,
        deepest: if scan.depth + 1 > scan.deepest { scan.depth + 1 } else { scan.deepest },
        ..scan
    }
}

/// The scan after one more byte.
pub open spec fn step(scan: Scan, byte: u8) -> Scan {
    let seen = if scan.unsure {
        if opens(byte) { opened(scan) } else { scan }
    } else if scan.quote != 0 {
        Scan { quote: if byte == scan.quote { 0 } else { scan.quote }, ..scan }
    } else if unscannable(scan.last, byte) {
        let unsure = Scan { unsure: true, ..scan };
        if opens(byte) { opened(unsure) } else { unsure }
    } else if quotes(byte) {
        Scan { quote: byte, ..scan }
    } else if opens(byte) {
        opened(scan)
    } else if closes(byte) {
        Scan { depth: if scan.depth > 0 { (scan.depth - 1) as nat } else { 0 }, ..scan }
    } else {
        scan
    };
    Scan { last: byte, ..seen }
}

/// The scan of a whole text.
pub open spec fn scan(bytes: Seq<u8>) -> Scan
    decreases bytes.len(),
{
    if bytes.len() == 0 {
        fresh()
    } else {
        step(scan(bytes.drop_last()), bytes.last())
    }
}

/// Whether a text is admitted: at most `MAX_LENGTH` bytes, and never more
/// than `MAX_DEPTH` brackets open.
pub open spec fn admissible(bytes: Seq<u8>) -> bool {
    bytes.len() <= MAX_LENGTH && scan(bytes).deepest <= MAX_DEPTH
}

/// Whether an expression is admitted, by its characters.
pub open spec fn admitted(text: Seq<char>) -> bool {
    admissible(vstd::utf8::encode_utf8(text))
}

/// Decides whether an expression is admitted.
pub fn is_admitted(expression: &str) -> (accepted: bool)
    ensures
        accepted == admitted(expression@),
{
    let bytes = expression.as_bytes();
    if bytes.len() > MAX_LENGTH {
        return false;
    }
    let mut depth: usize = 0;
    let mut deepest: usize = 0;
    let mut quote: u8 = 0;
    let mut last: u8 = 0;
    let mut unsure = false;
    let mut i: usize = 0;
    assert(bytes@.take(0) =~= Seq::<u8>::empty());
    while i < bytes.len()
        invariant
            i <= bytes.len() <= MAX_LENGTH,
            depth <= i,
            deepest <= i,
            scan(bytes@.take(i as int)) == (Scan {
                depth: depth as nat,
                deepest: deepest as nat,
                quote,
                last,
                unsure,
            }),
        decreases bytes.len() - i,
    {
        let byte = bytes[i];
        proof {
            assert(bytes@.take(i + 1).drop_last() =~= bytes@.take(i as int));
            assert(bytes@.take(i + 1).last() == byte);
        }
        let opening = byte == 40 || byte == 91 || byte == 123;
        let mut open_one = false;
        if unsure {
            open_one = opening;
        } else if quote != 0 {
            if byte == quote {
                quote = 0;
            }
        } else if (last == 40 && byte == 58) || (last == 81 && byte == 123) {
            unsure = true;
            open_one = opening;
        } else if byte == 39 || byte == 34 {
            quote = byte;
        } else if opening {
            open_one = true;
        } else if byte == 41 || byte == 93 || byte == 125 {
            if depth > 0 {
                depth -= 1;
            }
        }
        if open_one {
            depth += 1;
            if depth > deepest {
                deepest = depth;
            }
        }
        last = byte;
        i += 1;
    }
    assert(bytes@.take(i as int) =~= bytes@);
    deepest <= MAX_DEPTH
}

} // verus!
