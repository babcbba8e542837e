//! The report sent to the host: a byte of modifier bits and up to six keys.
//!
//! A report is made anew from all the key codes that are in force, never
//! patched. Modifier codes each set their bit. Of the other codes the report
//! carries the six newest; older ones are left out without further notice.

use vstd::prelude::*;

verus! {

/// The number of keys that a report carries beside the modifiers.
pub const REPORT_KEYS: usize = 6;

/// The first of the eight modifier codes, left control.
pub const FIRST_MODIFIER: u8 = 0xE0;

/// The last of the eight modifier codes, right GUI.
pub const LAST_MODIFIER: u8 = 0xE7;

/// `code` is one of the eight modifier codes.
pub open spec fn is_modifier(code: u8) -> bool {
    FIRST_MODIFIER <= code <= LAST_MODIFIER
}

/// The bit of a modifier code in the modifier byte; 0 for any other code.
pub open spec fn modifier_bit(code: u8) -> u8 {
    if is_modifier(code) {
        1u8 << ((code - FIRST_MODIFIER) as u8)
    } else {
        0
    }
}

/// The modifier byte for `codes`: the bits of all modifiers among them.
pub open spec fn modifiers_of(codes: Seq<u8>) -> u8
    decreases codes.len(),
{
    if codes.len() == 0 {
        0
    } else {
        modifiers_of(codes.drop_last()) | modifier_bit(codes.last())
    }
}

/// The codes among `codes` that stand for a key other than a modifier, in
/// order. Code 0 stands for no key.
pub open spec fn plain_of(codes: Seq<u8>) -> Seq<u8>
    decreases codes.len(),
{
    if codes.len() == 0 {
        codes
    } else if codes.last() == 0 || is_modifier(codes.last()) {
        plain_of(codes.drop_last())
    } else {
        plain_of(codes.drop_last()).push(codes.last())
    }
}

/// The last `n` of `codes`, or all of them if they are fewer.
pub open spec fn newest(codes: Seq<u8>, n: nat) -> Seq<u8> {
    if codes.len() <= n {
        codes
    } else {
        codes.subrange(codes.len() - n, codes.len() as int)
    }
}

/// The six key slots of the report for `codes`: the newest plain codes in
/// order, then zeros.
pub open spec fn slots_of(codes: Seq<u8>) -> Seq<u8> {
    let carried = newest(plain_of(codes), REPORT_KEYS as nat);
    Seq::new(
        REPORT_KEYS as nat,
        |i: int|
            if i < carried.len() {
                carried[i]
            } else {
                0u8
            },
    )
}

/// A keyboard report.
#[derive(Clone, Copy, Debug, PartialEq, Eq)]
pub struct Report {
    /// One bit per modifier that is down, left control lowest.
    pub modifiers: u8,
    /// The keys that are down, filled from the front; 0 marks a free slot.
    pub keys: [u8; 6],
}

/// Whether `code` is one of the eight modifier codes.
pub fn code_is_modifier(code: u8) -> (yes: bool)
    ensures
        yes == is_modifier(code),
{
    FIRST_MODIFIER <= code && code <= LAST_MODIFIER
}

impl Report {
    /// The report for `codes` is this one.
    pub open spec fn shows(self, codes: Seq<u8>) -> bool {
        self.modifiers == modifiers_of(codes) && self.keys@ == slots_of(codes)
    }

    /// The report with no key down.
    pub fn empty() -> (report: Report)
        ensures
            report.shows(Seq::empty()),
            report.modifiers == 0,
            report.keys@ == Seq::new(REPORT_KEYS as nat, |i: int| 0u8),
    {
        let report = Report { modifiers: 0, keys: [0u8, 0u8, 0u8, 0u8, 0u8, 0u8] };
        assert(report.keys@ =~= Seq::new(REPORT_KEYS as nat, |i: int| 0u8));
        assert(report.keys@ =~= slots_of(Seq::empty()));
        report
    }

    /// The report for the key codes `codes`, oldest first.
    pub fn from_codes(codes: &Vec<u8>) -> (report: Report)
        ensures
            report.shows(codes@),
    {
        let mut modifiers: u8 = 0;
        let mut plain: Vec<u8> = Vec::new();
        let mut i: usize = 0;
        while i < codes.len()
            invariant
                i <= codes@.len(),
                modifiers == modifiers_of(codes@.take(i as int)),
                plain@ == plain_of(codes@.take(i as int)),
            decreases codes@.len() - i,
        {
            let code: u8 = codes[i];
            proof {
                let upto = codes@.take(i + 1);
                assert(upto.drop_last() =~= codes@.take(i as int));
                assert(upto.last() == code);
            }
            if code_is_modifier(code) {
                let shift: u8 = code - FIRST_MODIFIER;
                assert(shift < 8);
                modifiers = modifiers | (1u8 << shift);
            } else {
                assert(modifiers | 0u8 == modifiers) by (bit_vector);
                if code != 0 {
                    plain.push(code);
                }
            }
            i += 1;
        }
        assert(codes@.take(codes@.len() as int) =~= codes@);
        let ghost carried = newest(plain@, REPORT_KEYS as nat);
        let count: usize = plain.len();
        let skip: usize = if count > REPORT_KEYS {
            count - REPORT_KEYS
        } else {
            0
        };
        let mut keys: [u8; 6] = [0u8, 0u8, 0u8, 0u8, 0u8, 0u8];
        let mut k: usize = 0;
        while k < REPORT_KEYS && skip + k < count
            invariant
                k <= REPORT_KEYS,
                skip + k <= count,
                plain@ == plain_of(codes@),
                count == plain@.len(),
                skip == (if count > REPORT_KEYS {
                    count - REPORT_KEYS
                } else {
                    0
                }),
                carried == newest(plain@, REPORT_KEYS as nat),
                keys@.len() == REPORT_KEYS,
                forall|j: int| 0 <= j < k ==> keys@[j] == carried[j],
                forall|j: int| k <= j < REPORT_KEYS ==> keys@[j] == 0,
            decreases REPORT_KEYS - k,
        {
            keys[k] = plain[skip + k];
            k += 1;
        }
        assert(carried.len() == count - skip);
        assert forall|j: int| 0 <= j < REPORT_KEYS implies keys@[j] == slots_of(codes@)[j] by {
            if j < k {
                assert(keys@[j] == carried[j]);
            }
        }
        assert(keys@ =~= slots_of(codes@));
        Report { modifiers, keys }
    }

    /// Whether two reports show the same.
    pub fn same(&self, other: &Report) -> (yes: bool)
        ensures
            yes == (self.modifiers == other.modifiers && self.keys@ == other.keys@),
    {
        if self.modifiers != other.modifiers {
            return false;
        }
        let mut k: usize = 0;
        while k < REPORT_KEYS
            invariant
                k <= REPORT_KEYS,
                self.keys@.len() == REPORT_KEYS,
                other.keys@.len() == REPORT_KEYS,
                forall|j: int| 0 <= j < k ==> self.keys@[j] == other.keys@[j],
            decreases REPORT_KEYS - k,
        {
            if self.keys[k] != other.keys[k] {
                return false;
            }
            k += 1;
        }
        assert(self.keys@ =~= other.keys@);
        true
    }

    /// The eight bytes of the report as the host reads them: the modifier
    /// byte, a byte that is always 0, and the six keys.
    pub fn as_bytes(&self) -> (bytes: [u8; 8])
        ensures
            bytes@ == seq![self.modifiers, 0u8] + self.keys@,
    {
        let bytes: [u8; 8] = [
            self.modifiers,
            0u8,
            self.keys[0],
            self.keys[1],
            self.keys[2],
            self.keys[3],
            self.keys[4],
            self.keys[5],
        ];
        assert(bytes@ =~= seq![self.modifiers, 0u8] + self.keys@);
        bytes
    }
}

} // verus!
