//! Where engine API messages are kept on disk for later inspection and
//! replay: a directory, and the rules by which its files are named and
//! ordered.

use crate::sidecar::Hash32;
use std::path::PathBuf;
use vstd::prelude::*;

verus! {

/// `std::path::PathBuf`: a path, carried as it is.
#[verifier::external_type_specification]
#[verifier::external_body]
pub struct ExPathBuf(PathBuf);

/// The byte `-`, which parts the fields of a file name.
pub const DASH: u8 = 45;

/// The byte `+`.
pub const PLUS: u8 = 43;

/// The byte `0`, the first of the ten digits.
pub const ZERO: u8 = 48;

/// Whether a byte is a decimal digit.
pub open spec fn is_digit(byte: u8) -> bool {
    ZERO <= byte <= ZERO + 9
}

/// Whether every byte is a decimal digit.
pub open spec fn all_digits(text: Seq<u8>) -> bool {
    forall|i: int| 0 <= i < text.len() ==> is_digit(#[trigger] text[i])
}

/// The number that a string of decimal digits writes.
pub open spec fn decimal_value(digits: Seq<u8>) -> nat
    decreases digits.len(),
{
    if digits.len() == 0 {
        0
    } else {
        decimal_value(digits.drop_last()) * 10 + (digits.last() - ZERO) as nat
    }
}

/// The 64-bit number that a text writes in decimal, as `u64`'s `FromStr`
/// reads it: one or more digits, with or without a `+` before them, whose
/// value fits. Any other text writes none.
pub open spec fn parsed_u64(text: Seq<u8>) -> Option<u64> {
    let digits = if text.len() > 0 && text[0] == PLUS {
        text.drop_first()
    } else {
        text
    };
    if digits.len() > 0 && all_digits(digits) && decimal_value(digits) <= u64::MAX {
        Some(decimal_value(digits) as u64)
    } else {
        None
    }
}

/// Where the first `-` of a name stands: its length, where it has none.
pub open spec fn dash_index(name: Seq<u8>) -> int
    decreases name.len(),
{
    if name.len() == 0 || name[0] == DASH {
        0
    } else {
        1 + dash_index(name.drop_first())
    }
}

/// The ending `.json`.
pub open spec fn json_suffix() -> Seq<u8> {
    seq![46u8, 106u8, 115u8, 111u8, 110u8]
}

/// Whether a name ends in `.json`.
pub open spec fn has_json_suffix(name: Seq<u8>) -> bool {
    name.len() >= 5 && name.subrange(name.len() - 5, name.len() as int) == json_suffix()
}

/// The time stamp under which a file of the directory is queued for replay:
/// the number before the first `-` of its name, where the name ends in
/// `.json` and that part writes a 64-bit number. A file with any other name
/// is not queued.
pub open spec fn queued_timestamp(name: Seq<u8>) -> Option<u64> {
    if has_json_suffix(name) {
        parsed_u64(name.take(dash_index(name)))
    } else {
        None
    }
}

/// A longer string of digits writes no smaller a number.
pub proof fn lemma_decimal_value_grows(digits: Seq<u8>, k: int)
    requires
        0 <= k <= digits.len(),
        all_digits(digits),
    ensures
        decimal_value(digits.take(k)) <= decimal_value(digits),
    decreases digits.len() - k,
{
    if k < digits.len() {
        lemma_decimal_value_grows(digits, k + 1);
        assert(digits.take(k + 1).drop_last() =~= digits.take(k));
        assert(is_digit(digits[k]));
    } else {
        assert(digits.take(k) =~= digits);
    }
}

/// The first `-` stands where no `-` stands before and one stands at, or
/// the name ends.
pub proof fn lemma_dash_index(name: Seq<u8>, k: int)
    requires
        0 <= k <= name.len(),
        forall|i: int| 0 <= i < k ==> name[i] != DASH,
        k < name.len() ==> name[k] == DASH,
    ensures
        dash_index(name) == k,
    decreases k,
{
    if k > 0 {
        let rest = name.drop_first();
        assert forall|i: int| 0 <= i < k - 1 implies rest[i] != DASH by {
            assert(rest[i] == name[i + 1]);
        }
        lemma_dash_index(rest, k - 1);
    }
}

/// Reads a 64-bit number from its decimal text, as `u64`'s `FromStr` does.
pub fn parse_u64(text: &[u8]) -> (value: Option<u64>)
    ensures
        value == parsed_u64(text@),
{
    let start: usize = if text.len() > 0 && text[0] == PLUS {
        1
    } else {
        0
    };
    let ghost digits = if start == 1 {
        text@.drop_first()
    } else {
        text@
    };
    if start == text.len() {
        return None;
    }
    let mut value: u64 = 0;
    let mut i: usize = start;
    while i < text.len()
        invariant
            start <= i <= text.len(),
            start <= 1,
            digits == if text@.len() > 0 && text@[0] == PLUS {
                text@.drop_first()
            } else {
                text@
            },
            digits.len() == text.len() - start,
            forall|j: int| 0 <= j < digits.len() ==> digits[j] == text@[j + start],
            all_digits(digits.take(i - start)),
            value == decimal_value(digits.take(i - start)),
        decreases text.len() - i,
    {
        let byte = text[i];
        let ghost seen = digits.take(i - start);
        let ghost more = digits.take(i - start + 1);
        proof {
            assert(more.drop_last() =~= seen);
            assert(more.last() == byte);
        }
        if byte < ZERO || byte > ZERO + 9 {
            assert(!is_digit(digits[i - start]));
            return None;
        }
        proof {
            assert forall|j: int| 0 <= j < more.len() implies is_digit(#[trigger] more[j]) by {
                if j < seen.len() {
                    assert(more[j] == seen[j]);
                }
            }
        }
        let digit: u64 = (byte - ZERO) as u64;
        let next = match value.checked_mul(10) {
            Some(tenfold) => tenfold.checked_add(digit),
            None => None,
        };
        match next {
            Some(sum) => {
                value = sum;
            },
            None => {
                proof {
                    assert(decimal_value(more) > u64::MAX);
                    if all_digits(digits) {
                        lemma_decimal_value_grows(digits, i - start + 1);
                    }
                }
                return None;
            },
        }
        i += 1;
    }
    proof {
        assert(digits.take(i - start) =~= digits);
    }
    Some(value)
}

/// Whether a name ends in `.json`.
pub fn is_json_name(name: &[u8]) -> (json: bool)
    ensures
        json == has_json_suffix(name@),
{
    let n = name.len();
    if n < 5 {
        return false;
    }
    let json = name[n - 5] == 46 && name[n - 4] == 106 && name[n - 3] == 115 && name[n - 2] == 111
        && name[n - 1] == 110;
    proof {
        let tail = name@.subrange(n - 5, n as int);
        if json {
            assert(tail =~= json_suffix());
        } else {
            assert(tail[0] == name@[n - 5] && tail[1] == name@[n - 4] && tail[2] == name@[n - 3]
                && tail[3] == name@[n - 2] && tail[4] == name@[n - 1]);
        }
    }
    json
}

/// The time stamp under which a file is queued for replay, if its name
/// queues it.
pub fn timestamp_of(name: &[u8]) -> (stamp: Option<u64>)
    ensures
        stamp == queued_timestamp(name@),
{
    if !is_json_name(name) {
        return None;
    }
    let mut end: usize = 0;
    while end < name.len() && name[end] != DASH
        invariant
            end <= name.len(),
            forall|i: int| 0 <= i < end ==> name@[i] != DASH,
        decreases name.len() - end,
    {
        end += 1;
    }
    proof {
        lemma_dash_index(name@, end as int);
    }
    let segment = vstd::slice::slice_subrange(name, 0, end);
    assert(segment@ =~= name@.take(end as int));
    parse_u64(segment)
}

/// Whether file `a` of a listing is replayed before file `b`: both are
/// queued, and `a` has the earlier time stamp, or the same and stands
/// earlier in the listing.
pub open spec fn replayed_before(names: Seq<Vec<u8>>, a: int, b: int) -> bool {
    let first = queued_timestamp(names[a]@);
    let second = queued_timestamp(names[b]@);
    first is Some && second is Some && (first->0 < second->0 || (first->0 == second->0 && a < b))
}

/// Whether `order` is the order in which the files of a listing are
/// replayed: it holds the positions of the queued files and no others, each
/// once, by time stamp, and in the order of the listing where two files have
/// the same time stamp.
pub open spec fn is_replay_order(names: Seq<Vec<u8>>, order: Seq<usize>) -> bool {
    &&& forall|k: int|
        0 <= k < order.len() ==> (#[trigger] order[k]) < names.len() && queued_timestamp(
            names[order[k] as int]@,
        ) is Some
    &&& forall|k: int, l: int|
        0 <= k < l < order.len() ==> replayed_before(
            names,
            #[trigger] order[k] as int,
            #[trigger] order[l] as int,
        )
    &&& forall|i: int|
        0 <= i < names.len() && queued_timestamp((#[trigger] names[i])@) is Some ==> exists|
            k: int,
        |
            0 <= k < order.len() && #[trigger] order[k] == i
}

/// The order in which the files of a listing are replayed. A file that is
/// not queued has no place in it.
pub fn replay_order(names: &Vec<Vec<u8>>) -> (order: Vec<usize>)
    ensures
        is_replay_order(names@, order@),
{
    let mut order: Vec<usize> = Vec::new();
    let mut stamps: Vec<u64> = Vec::new();
    let mut i: usize = 0;
    while i < names.len()
        invariant
            i <= names.len(),
            stamps.len() == order.len(),
            forall|k: int|
                0 <= k < order.len() ==> (#[trigger] order[k]) < i && queued_timestamp(
                    names[order[k] as int]@,
                ) == Some(stamps[k]),
            forall|k: int, l: int|
                0 <= k < l < order.len() ==> replayed_before(
                    names@,
                    #[trigger] order[k] as int,
                    #[trigger] order[l] as int,
                ),
            forall|j: int|
                0 <= j < i && queued_timestamp((#[trigger] names[j])@) is Some ==> exists|k: int|
                    0 <= k < order.len() && #[trigger] order[k] == j,
        decreases names.len() - i,
    {
        match timestamp_of(names[i].as_slice()) {
            Some(stamp) => {
                let mut place: usize = order.len();
                while place > 0 && stamps[place - 1] > stamp
                    invariant
                        place <= order.len(),
                        stamps.len() == order.len(),
                        forall|k: int| place <= k < stamps.len() ==> stamps[k] > stamp,
                    decreases place,
                {
                    place -= 1;
                }
                let ghost before = order@;
                let ghost before_stamps = stamps@;
                order.insert(place, i);
                stamps.insert(place, stamp);
                proof {
                    let after = order@;
                    let origin = |k: int| if k < place { k } else { k - 1 };
                    assert forall|k: int| 0 <= k < after.len() implies (#[trigger] after[k]) < i + 1
                        && queued_timestamp(names[after[k] as int]@) == Some(stamps@[k]) by {
                        if k != place {
                            assert(after[k] == before[origin(k)]);
                            assert(stamps@[k] == before_stamps[origin(k)]);
                        }
                    }
                    assert forall|k: int, l: int| 0 <= k < l < after.len() implies replayed_before(
                        names@,
                        #[trigger] after[k] as int,
                        #[trigger] after[l] as int,
                    ) by {
                        if k != place {
                            assert(after[k] == before[origin(k)]);
                            assert(stamps@[k] == before_stamps[origin(k)]);
                        }
                        if l != place {
                            assert(after[l] == before[origin(l)]);
                            assert(stamps@[l] == before_stamps[origin(l)]);
                        }
                        if k != place && l != place {
                            assert(replayed_before(
                                names@,
                                before[origin(k)] as int,
                                before[origin(l)] as int,
                            ));
                        } else if l == place {
                            if place > 0 && k < place - 1 {
                                assert(replayed_before(
                                    names@,
                                    before[k] as int,
                                    before[place - 1] as int,
                                ));
                            }
                        }
                    }
                    assert forall|j: int|
                        0 <= j < i + 1 && queued_timestamp((#[trigger] names[j])@) is Some implies exists|
                        k: int,
                    |
                        0 <= k < after.len() && #[trigger] after[k] == j by {
                        if j < i {
                            let k = choose|k: int| 0 <= k < before.len() && #[trigger] before[k] == j;
                            let moved = if k < place {
                                k
                            } else {
                                k + 1
                            };
                            assert(after[moved] == j);
                        } else {
                            assert(after[place as int] == j);
                        }
                    }
                }
            },
            None => {},
        }
        i += 1;
    }
    order
}

/// The two calls of the engine API whose messages are stored.
#[derive(Debug, Clone, Copy, PartialEq, Eq, Structural)]
pub enum MessageKind {
    /// `engine_forkchoiceUpdated`, stored under the hash of the head block.
    ForkchoiceUpdated,
    /// `engine_newPayload`, stored under the hash of the payload's block.
    NewPayload,
}

/// The word that stands for a kind of message in a file name: `fcu` or
/// `new_payload`.
pub open spec fn kind_tag(kind: MessageKind) -> Seq<u8> {
    match kind {
        MessageKind::ForkchoiceUpdated => seq![102u8, 99u8, 117u8],
        MessageKind::NewPayload => seq![
            110u8,
            101u8,
            119u8,
            95u8,
            112u8,
            97u8,
            121u8,
            108u8,
            111u8,
            97u8,
            100u8,
        ],
    }
}

/// A number in decimal digits, without leading zeros.
pub open spec fn decimal_text(n: nat) -> Seq<u8>
    decreases n,
{
    if n < 10 {
        seq![(ZERO + n) as u8]
    } else {
        decimal_text(n / 10).push((ZERO + n % 10) as u8)
    }
}

/// The digit of a value below sixteen, in lower case.
pub open spec fn hex_digit(nibble: u8) -> u8 {
    if nibble < 10 {
        (ZERO + nibble) as u8
    } else {
        (87 + nibble) as u8
    }
}

/// Bytes in hexadecimal digits, two for each byte.
pub open spec fn hex_text(bytes: Seq<u8>) -> Seq<u8>
    decreases bytes.len(),
{
    if bytes.len() == 0 {
        Seq::empty()
    } else {
        hex_text(bytes.drop_last()).push(hex_digit(bytes.last() / 16)).push(
            hex_digit(bytes.last() % 16),
        )
    }
}

/// The name of the file that holds a message: the time the message was
/// received, in milliseconds, the kind of message, and the block hash after
/// `0x`, parted by `-` and ending in `.json`.
pub open spec fn message_file_name(kind: MessageKind, timestamp: u128, block_hash: Seq<u8>) -> Seq<
    u8,
> {
    decimal_text(timestamp as nat) + seq![DASH] + kind_tag(kind) + seq![DASH, 48u8, 120u8]
        + hex_text(block_hash) + json_suffix()
}

fn push_decimal(out: &mut Vec<u8>, n: u128)
    ensures
        final(out)@ == old(out)@ + decimal_text(n as nat),
    decreases n,
{
    if n >= 10 {
        push_decimal(out, n / 10);
    }
    let digit: u8 = (n % 10) as u8;
    out.push(ZERO + digit);
    assert(final(out)@ =~= old(out)@ + decimal_text(n as nat));
}

fn push_hex(out: &mut Vec<u8>, bytes: &[u8])
    ensures
        final(out)@ == old(out)@ + hex_text(bytes@),
{
    let ghost before = out@;
    let mut i: usize = 0;
    assert(out@ =~= before + hex_text(bytes@.take(0)));
    while i < bytes.len()
        invariant
            i <= bytes.len(),
            out@ == before + hex_text(bytes@.take(i as int)),
        decreases bytes.len() - i,
    {
        let byte = bytes[i];
        let high: u8 = byte / 16;
        let low: u8 = byte % 16;
        let first: u8 = if high < 10 {
            ZERO + high
        } else {
            87 + high
        };
        let second: u8 = if low < 10 {
            ZERO + low
        } else {
            87 + low
        };
        out.push(first);
        out.push(second);
        proof {
            let next = bytes@.take(i + 1);
            assert(next.drop_last() =~= bytes@.take(i as int));
            assert(next.last() == byte);
            assert(out@ =~= before + hex_text(next));
        }
        i += 1;
    }
    assert(bytes@.take(bytes.len() as int) =~= bytes@);
}

fn push_kind(out: &mut Vec<u8>, kind: MessageKind)
    ensures
        final(out)@ == old(out)@ + kind_tag(kind),
{
    match kind {
        MessageKind::ForkchoiceUpdated => {
            out.push(102);
            out.push(99);
            out.push(117);
        },
        MessageKind::NewPayload => {
            out.push(110);
            out.push(101);
            out.push(119);
            out.push(95);
            out.push(112);
            out.push(97);
            out.push(121);
            out.push(108);
            out.push(111);
            out.push(97);
            out.push(100);
        },
    }
    assert(final(out)@ =~= old(out)@ + kind_tag(kind));
}

/// The name of the file that holds a message of a kind, received at
/// `timestamp` milliseconds, under a block hash.
pub fn file_name(kind: MessageKind, timestamp: u128, block_hash: &Hash32) -> (name: Vec<u8>)
    ensures
        name@ == message_file_name(kind, timestamp, block_hash@),
{
    let mut name: Vec<u8> = Vec::new();
    push_decimal(&mut name, timestamp);
    name.push(DASH);
    push_kind(&mut name, kind);
    name.push(DASH);
    name.push(48);
    name.push(120);
    push_hex(&mut name, block_hash.as_slice());
    name.push(46);
    name.push(106);
    name.push(115);
    name.push(111);
    name.push(110);
    assert(name@ =~= message_file_name(kind, timestamp, block_hash@));
    name
}

/// The decimal text of a number is made of digits and writes that number.
pub proof fn lemma_decimal_text(n: nat)
    ensures
        decimal_text(n).len() > 0,
        all_digits(decimal_text(n)),
        decimal_value(decimal_text(n)) == n,
    decreases n,
{
    if n >= 10 {
        lemma_decimal_text(n / 10);
        let text = decimal_text(n);
        assert(text.drop_last() =~= decimal_text(n / 10));
        assert forall|i: int| 0 <= i < text.len() implies is_digit(#[trigger] text[i]) by {
            if i < text.len() - 1 {
                assert(text[i] == decimal_text(n / 10)[i]);
            }
        }
        assert(text.last() == (ZERO + n % 10) as u8);
        assert(decimal_value(text) == decimal_value(text.drop_last()) * 10 + (text.last() - ZERO));
    } else {
        let text = decimal_text(n);
        assert(text.drop_last() =~= Seq::<u8>::empty());
        assert(text.last() == (ZERO + n) as u8);
        assert(decimal_value(text.drop_last()) == 0);
        assert(decimal_value(text) == decimal_value(text.drop_last()) * 10 + (text.last() - ZERO));
    }
}

/// A stored message is queued for replay under the time it was received at:
/// the name that `file_name` gives a message reads back as its time stamp,
/// as long as the time fits 64 bits.
pub proof fn lemma_file_name_is_queued(kind: MessageKind, timestamp: u128, block_hash: Seq<u8>)
    requires
        timestamp <= u64::MAX,
    ensures
        queued_timestamp(message_file_name(kind, timestamp, block_hash)) == Some(timestamp as u64),
{
    let stamp = decimal_text(timestamp as nat);
    let name = message_file_name(kind, timestamp, block_hash);
    lemma_decimal_text(timestamp as nat);
    let k = stamp.len() as int;
    assert forall|i: int| 0 <= i < k implies name[i] != DASH by {
        assert(name[i] == stamp[i]);
        assert(is_digit(stamp[i]));
    }
    assert(name[k] == DASH);
    lemma_dash_index(name, k);
    assert(name.take(k) =~= stamp);
    assert(is_digit(stamp[0]));
    assert(name.subrange(name.len() - 5, name.len() as int) =~= json_suffix());
}

/// A directory of stored engine API messages, one JSON file each.
#[derive(Debug)]
pub struct EngineMessageStore {
    path: PathBuf,
}

impl EngineMessageStore {
    /// The directory of the store.
    pub closed spec fn directory(&self) -> PathBuf {
        self.path
    }

    /// A store over the directory at `path`.
    pub fn new(path: PathBuf) -> (store: Self)
        ensures
            store.directory() == path,
    {
        EngineMessageStore { path }
    }

    /// The directory of the store.
    pub fn path(&self) -> (path: &PathBuf)
        ensures
            *path == self.directory(),
    {
        &self.path
    }

    /// The name of the file, within the directory, that holds a message of
    /// a kind that was received at `received_at` milliseconds after the
    /// epoch, under the hash of its block.
    pub fn on_message(&self, kind: MessageKind, received_at: u128, block_hash: &Hash32) -> (name:
        Vec<u8>)
        ensures
            name@ == message_file_name(kind, received_at, block_hash@),
    {
        file_name(kind, received_at, block_hash)
    }

    /// The order in which the stored messages are replayed, given the names
    /// of the files in the directory: the positions, in `listing`, of the
    /// files that hold a message, by time stamp.
    pub fn engine_messages_iter(&self, listing: &Vec<Vec<u8>>) -> (order: Vec<usize>)
        ensures
            is_replay_order(listing@, order@),
    {
        replay_order(listing)
    }
}

/// A stream of engine API messages together with the store that keeps a
/// copy of each message that passes.
#[derive(Debug)]
pub struct EngineStoreStream<S> {
    stream: S,
    store: EngineMessageStore,
}

impl<S> EngineStoreStream<S> {
    /// The stream that the messages come from.
    pub closed spec fn source(&self) -> S {
        self.stream
    }

    /// The directory that the messages are stored in.
    pub closed spec fn directory(&self) -> PathBuf {
        self.store.directory()
    }

    /// Wraps `stream`, to store its messages in the directory at `path`.
    pub fn new(stream: S, path: PathBuf) -> (wrapped: Self)
        ensures
            wrapped.source() == stream,
            wrapped.directory() == path,
    {
        EngineStoreStream { stream, store: EngineMessageStore::new(path) }
    }

    /// The store that keeps the messages.
    pub fn store(&self) -> (store: &EngineMessageStore)
        ensures
            store.directory() == self.directory(),
    {
        &self.store
    }

    /// The stream and the store, apart again.
    pub fn into_parts(self) -> (parts: (S, EngineMessageStore))
        ensures
            parts.0 == self.source(),
            parts.1.directory() == self.directory(),
    {
        (self.stream, self.store)
    }
}

} // verus!
