//! Result encoder: one fixed-size record per order call, returned by value.

use crate::codes::POLYMARKET_OK;
use vstd::array::spec_array_fill_for_copy_type;
use vstd::prelude::*;
use vstd::string::StringSliceAdditionalSpecFns;
use vstd::utf8::encode_utf8;

verus! {

/// Bytes that the record keeps for the order identifier, terminator included.
pub const ORDER_ID_CAPACITY: usize = 128;

/// Longest order identifier that is kept whole; a longer one is cut here.
pub const ORDER_ID_MAX_LEN: usize = 127;

/// What an order call hands back. Quantities and prices are in raw units.
#[derive(Clone, Copy, Debug, PartialEq, Eq)]
pub struct PolymarketOrderResult {
    pub success: bool,
    pub filled_qty_raw: i64,
    pub avg_price_raw: i64,
    pub latency_ms: u64,
    pub error_code: i32,
    pub order_id: [u8; 128],
}

/// The bytes of a buffer up to its first zero byte: the text that a reader of
/// null-terminated strings sees in it.
pub open spec fn text_before_nul(buffer: Seq<u8>) -> Seq<u8>
    decreases buffer.len(),
{
    if buffer.len() == 0 || buffer[0] == 0 {
        Seq::empty()
    } else {
        seq![buffer[0]] + text_before_nul(buffer.drop_first())
    }
}

/// Number of bytes of an identifier that the record keeps.
pub open spec fn kept_len(id: Seq<u8>) -> int {
    if id.len() < ORDER_ID_MAX_LEN {
        id.len() as int
    } else {
        ORDER_ID_MAX_LEN as int
    }
}

/// The buffer after an identifier is written over it: the kept bytes, then a
/// zero byte, then what the buffer held before.
pub open spec fn with_order_id(buffer: Seq<u8>, id: Seq<u8>) -> Seq<u8> {
    Seq::new(
        buffer.len(),
        |i: int|
            if i < kept_len(id) {
                id[i]
            } else if i == kept_len(id) {
                0u8
            } else {
                buffer[i]
            },
    )
}

impl PolymarketOrderResult {
    /// The record before anything is known: no success, zero figures, code
    /// zero, an empty identifier.
    pub open spec fn blank() -> PolymarketOrderResult {
        PolymarketOrderResult {
            success: false,
            filled_qty_raw: 0,
            avg_price_raw: 0,
            latency_ms: 0,
            error_code: POLYMARKET_OK,
            order_id: spec_array_fill_for_copy_type::<u8, 128>(0u8),
        }
    }

    /// The record of a call that failed with `code`.
    pub open spec fn failed(code: i32) -> PolymarketOrderResult {
        PolymarketOrderResult { error_code: code, ..Self::blank() }
    }

    /// The record of a call that failed with `code` after `latency_ms`.
    pub open spec fn failed_after(code: i32, latency_ms: u64) -> PolymarketOrderResult {
        PolymarketOrderResult { latency_ms, ..Self::failed(code) }
    }

    /// The record is the one of an order that the exchange answered: the
    /// figures as given, code zero, and the identifier written over an empty
    /// buffer.
    pub open spec fn reports(
        self,
        success: bool,
        filled_qty_raw: i64,
        avg_price_raw: i64,
        latency_ms: u64,
        order_id: Seq<char>,
    ) -> bool {
        &&& self.success == success
        &&& self.filled_qty_raw == filled_qty_raw
        &&& self.avg_price_raw == avg_price_raw
        &&& self.latency_ms == latency_ms
        &&& self.error_code == POLYMARKET_OK
        &&& self.order_id@ == with_order_id(Self::blank().order_id@, encode_utf8(order_id))
    }

    /// The order identifier as a reader of the record sees it.
    pub open spec fn order_id_text(self) -> Seq<u8> {
        text_before_nul(self.order_id@)
    }

    /// A record that reports failure with `code` and nothing else.
    pub fn with_error(code: i32) -> (r: PolymarketOrderResult)
        ensures
            r == Self::failed(code),
    {
        PolymarketOrderResult {
            success: false,
            filled_qty_raw: 0,
            avg_price_raw: 0,
            latency_ms: 0,
            error_code: code,
            order_id: [0u8; 128],
        }
    }

    /// A record that reports failure with `code` after `latency_ms`.
    pub fn with_error_after(code: i32, latency_ms: u64) -> (r: PolymarketOrderResult)
        ensures
            r == Self::failed_after(code, latency_ms),
    {
        let mut r = Self::with_error(code);
        r.latency_ms = latency_ms;
        r
    }

    /// The record of an order that the exchange answered.
    pub fn answered(
        success: bool,
        filled_qty_raw: i64,
        avg_price_raw: i64,
        latency_ms: u64,
        order_id: &str,
    ) -> (r: PolymarketOrderResult)
        ensures
            r.reports(success, filled_qty_raw, avg_price_raw, latency_ms, order_id@),
    {
        let mut r = PolymarketOrderResult {
            success,
            filled_qty_raw,
            avg_price_raw,
            latency_ms,
            error_code: POLYMARKET_OK,
            order_id: [0u8; 128],
        };
        r.set_order_id(order_id);
        r
    }

    /// Writes an order identifier into the record: its first 127 bytes at
    /// most, followed by a zero byte. Nothing else changes.
    pub fn set_order_id(&mut self, id: &str)
        ensures
            final(self).order_id@ == with_order_id(old(self).order_id@, id.spec_bytes()),
            final(self).success == old(self).success,
            final(self).filled_qty_raw == old(self).filled_qty_raw,
            final(self).avg_price_raw == old(self).avg_price_raw,
            final(self).latency_ms == old(self).latency_ms,
            final(self).error_code == old(self).error_code,
    {
        let bytes = id.as_bytes();
        let len = if bytes.len() < ORDER_ID_MAX_LEN {
            bytes.len()
        } else {
            ORDER_ID_MAX_LEN
        };
        let mut i: usize = 0;
        while i < len
            invariant
                i <= len <= ORDER_ID_MAX_LEN,
                len == kept_len(bytes@),
                bytes@ == id.spec_bytes(),
                self.success == old(self).success,
                self.filled_qty_raw == old(self).filled_qty_raw,
                self.avg_price_raw == old(self).avg_price_raw,
                self.latency_ms == old(self).latency_ms,
                self.error_code == old(self).error_code,
                forall|j: int| 0 <= j < i ==> self.order_id@[j] == bytes@[j],
                forall|j: int| i <= j < 128 ==> self.order_id@[j] == old(self).order_id@[j],
            decreases len - i,
        {
            self.order_id[i] = bytes[i];
            i = i + 1;
        }
        self.order_id[len] = 0;
        assert(self.order_id@ =~= with_order_id(old(self).order_id@, id.spec_bytes()));
    }

    /// The bytes of the order identifier, without the terminator.
    pub fn order_id_bytes(&self) -> (text: Vec<u8>)
        ensures
            text@ == self.order_id_text(),
    {
        let mut text: Vec<u8> = Vec::new();
        let mut i: usize = 0;
        proof {
            assert(self.order_id@.skip(0) =~= self.order_id@);
        }
        while i < ORDER_ID_CAPACITY && self.order_id[i] != 0
            invariant
                i <= ORDER_ID_CAPACITY,
                self.order_id_text() == text@ + text_before_nul(self.order_id@.skip(i as int)),
            decreases ORDER_ID_CAPACITY - i,
        {
            proof {
                let rest = self.order_id@.skip(i as int);
                assert(rest.drop_first() =~= self.order_id@.skip(i as int + 1));
                assert(text@ + (seq![rest[0]] + text_before_nul(rest.drop_first())) =~= text@.push(
                    rest[0],
                ) + text_before_nul(rest.drop_first()));
            }
            text.push(self.order_id[i]);
            i = i + 1;
        }
        proof {
            let rest = self.order_id@.skip(i as int);
            assert(text_before_nul(rest) =~= Seq::<u8>::empty());
            assert(text@ + Seq::<u8>::empty() =~= text@);
        }
        text
    }
}

impl Default for PolymarketOrderResult {
    fn default() -> (r: PolymarketOrderResult)
        ensures
            r == PolymarketOrderResult::blank(),
    {
        PolymarketOrderResult {
            success: false,
            filled_qty_raw: 0,
            avg_price_raw: 0,
            latency_ms: 0,
            error_code: POLYMARKET_OK,
            order_id: [0u8; 128],
        }
    }
}

/// A buffer reads as `text` when `text` holds no zero byte and a zero byte
/// follows it in the buffer.
pub proof fn lemma_text_before_nul(buffer: Seq<u8>, text: Seq<u8>)
    requires
        text.len() < buffer.len(),
        forall|i: int| 0 <= i < text.len() ==> buffer[i] == text[i] && text[i] != 0,
        buffer[text.len() as int] == 0,
    ensures
        text_before_nul(buffer) == text,
    decreases text.len(),
{
    if text.len() == 0 {
        assert(text =~= Seq::<u8>::empty());
    } else {
        let rest = buffer.drop_first();
        let tail = text.drop_first();
        assert forall|i: int| 0 <= i < tail.len() implies rest[i] == tail[i] && tail[i] != 0 by {
            assert(rest[i] == buffer[i + 1]);
            assert(tail[i] == text[i + 1]);
        }
        assert(rest[tail.len() as int] == buffer[text.len() as int]);
        lemma_text_before_nul(rest, tail);
        assert(seq![buffer[0]] + tail =~= text);
    }
}

/// An identifier without a zero byte is read back from the record as its
/// first 127 bytes: whole if it is no longer than that.
pub proof fn lemma_order_id_round_trip(buffer: Seq<u8>, id: Seq<u8>)
    requires
        buffer.len() == ORDER_ID_CAPACITY,
        forall|i: int| 0 <= i < id.len() ==> id[i] != 0,
    ensures
        text_before_nul(with_order_id(buffer, id)) == id.take(kept_len(id)),
        id.len() <= ORDER_ID_MAX_LEN ==> text_before_nul(with_order_id(buffer, id)) == id,
{
    let kept = id.take(kept_len(id));
    lemma_text_before_nul(with_order_id(buffer, id), kept);
    if id.len() <= ORDER_ID_MAX_LEN {
        assert(kept =~= id);
    }
}

} // verus!
