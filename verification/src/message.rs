use vstd::prelude::*;
use vstd::string::StringExecFns;
use crate::digits::{dec_digits, signed_dec_digits, i32_to_decimal, u64_to_decimal, lemma_dec_digits_no_comma, lemma_signed_dec_no_comma, lemma_dec_digits_injective, lemma_signed_dec_injective};

verus! {

/// Largest price, in hundredths of a currency unit, that the discount
/// computation accepts: keeps `price_cents * 100 + 50` inside `u64`.
pub const MAX_PRICE_CENTS: u64 = 0xFFFF_FFFF;

/// A decoded queue item. Money amounts are held in hundredths of a unit so
/// that the discount and rounding rules are exact integer arithmetic;
/// `total_cents` is the derived field, left at zero until `update_discount`
/// runs.
pub struct Message {
    pub index: i32,
    pub wday: u8,
    pub payload: String,
    pub price_cents: u64,
    pub user_id: i32,
    pub total_cents: u64,
}

/// Discount percentage for a weekday `0 ..= 6`: 0, 5, 10, 15, 20, 25, 30.
pub open spec fn discount_percent(wday: int) -> int {
    5 * wday
}

/// The discounted price in hundredths, rounded half-up to the nearest
/// hundredth.
pub open spec fn discounted_total(price_cents: int, wday: int) -> int {
    (price_cents * (100 - discount_percent(wday)) + 50) / 100
}

/// What md5 yields for a given text: thirty-two lowercase hexadecimal digits,
/// a function of the text alone.
pub uninterp spec fn md5_hex_of(s: Seq<char>) -> Seq<char>;

pub open spec fn is_lower_hex_digit(c: char) -> bool {
    crate::digits::is_dec_digit(c) || c == 'a' || c == 'b' || c == 'c' || c == 'd' || c == 'e'
        || c == 'f'
}

/// A rendered digest: exactly thirty-two characters, each a lowercase
/// hexadecimal digit.
pub open spec fn lower_hex_text(s: Seq<char>) -> bool {
    s.len() == 32 && forall|i: int| 0 <= i < s.len() ==> is_lower_hex_digit(#[trigger] s[i])
}

/// The canonical fingerprint text for the given field values: every field
/// rendered in decimal, separated by commas, with the payload placed verbatim
/// after its separator.
pub open spec fn encoding_of(
    index: int,
    wday: int,
    payload: Seq<char>,
    price_cents: int,
    user_id: int,
    total_cents: int,
) -> Seq<char> {
    signed_dec_digits(index) + seq![','] + dec_digits(wday) + seq![','] + payload + seq![',']
        + dec_digits(price_cents) + seq![','] + signed_dec_digits(user_id) + seq![',']
        + dec_digits(total_cents)
}

impl Message {
    /// A message the discount rule accepts: a real weekday and a price within
    /// the arithmetic bound.
    pub open spec fn wf(self) -> bool {
        &&& self.wday < 7
        &&& self.price_cents <= MAX_PRICE_CENTS
    }

    /// The same message with the derived total filled in from price and
    /// weekday; no other field moves.
    pub open spec fn transformed(self) -> Message {
        Message {
            total_cents: discounted_total(self.price_cents as int, self.wday as int) as u64,
            ..self
        }
    }

    pub open spec fn encoding(self) -> Seq<char> {
        encoding_of(
            self.index as int,
            self.wday as int,
            self.payload@,
            self.price_cents as int,
            self.user_id as int,
            self.total_cents as int,
        )
    }

    pub open spec fn fingerprint_spec(self) -> Seq<char> {
        md5_hex_of(self.encoding())
    }

    /// Fills the derived total: the price less the weekday's discount
    /// percentage, rounded half-up to the nearest hundredth.
    pub fn update_discount(&mut self)
        requires
            old(self).wf(),
        ensures
            *final(self) == old(self).transformed(),
    {
        let pct: u64 = 100 - 5 * (self.wday as u64);
        proof {
            assert(self.price_cents * pct <= 0xFFFF_FFFFu64 * 100) by (nonlinear_arith)
                requires
                    self.price_cents <= 0xFFFF_FFFFu64,
                    pct <= 100,
            ;
        }
        let t: u64 = (self.price_cents * pct + 50) / 100;
        self.total_cents = t;
    }

    /// The canonical text the fingerprint is computed over.
    pub fn canonical_encoding(&self) -> (r: String)
        ensures
            r@ == self.encoding(),
    {
        let mut r = i32_to_decimal(self.index);
        let wday_text = u64_to_decimal(self.wday as u64);
        let price_text = u64_to_decimal(self.price_cents);
        let user_text = i32_to_decimal(self.user_id);
        let total_text = u64_to_decimal(self.total_cents);
        r.append(",");
        r.append(wday_text.as_str());
        r.append(",");
        r.append(self.payload.as_str());
        r.append(",");
        r.append(price_text.as_str());
        r.append(",");
        r.append(user_text.as_str());
        r.append(",");
        r.append(total_text.as_str());
        proof {
            reveal_strlit(",");
            assert(r@ =~= self.encoding());
        }
        r
    }

    /// The content hash of a message: md5 over the canonical encoding,
    /// rendered as lowercase hexadecimal.
    pub fn signature(self) -> (r: String)
        ensures
            r@ == self.fingerprint_spec(),
            lower_hex_text(r@),
    {
        let text = self.canonical_encoding();
        md5_hex(text.as_str())
    }
}

/// Relies on md5::compute and the md5 crate's LowerHex rendering of Digest:
/// the 16-byte digest of the input bytes, each byte printed as two lowercase
/// hexadecimal digits — 32 such characters in all — a function of the input
/// alone.
#[verifier::external_body]
fn md5_hex(s: &str) -> (r: String)
    ensures
        r@ == md5_hex_of(s@),
        lower_hex_text(r@),
{
    format!("{:x}", md5::compute(s))
}

/// Applying the transform twice is the same as applying it once: the derived
/// total is a function of fields the transform never changes.
pub proof fn lemma_transform_idempotent(m: Message)
    ensures
        m.transformed().transformed() == m.transformed(),
{
}

/// Splitting a comma-separated text at the first comma is unambiguous when
/// the part before it holds no comma.
proof fn lemma_split_first_comma(x1: Seq<char>, r1: Seq<char>, x2: Seq<char>, r2: Seq<char>)
    requires
        x1 + seq![','] + r1 == x2 + seq![','] + r2,
        forall|i: int| 0 <= i < x1.len() ==> x1[i] != ',',
        forall|i: int| 0 <= i < x2.len() ==> x2[i] != ',',
    ensures
        x1 == x2,
        r1 == r2,
{
    let s = x1 + seq![','] + r1;
    assert(s.len() == x1.len() + 1 + r1.len());
    assert(s.len() == x2.len() + 1 + r2.len());
    if x1.len() < x2.len() {
        assert(s[x1.len() as int] == ',');
        assert(s[x1.len() as int] == x2[x1.len() as int]);
        assert(false);
    }
    if x2.len() < x1.len() {
        assert(s[x2.len() as int] == ',');
        assert(s[x2.len() as int] == x1[x2.len() as int]);
        assert(false);
    }
    assert forall|i: int| 0 <= i < x1.len() implies x1[i] == x2[i] by {
        assert((x1 + seq![','] + r1)[i] == x1[i]);
        assert((x2 + seq![','] + r2)[i] == x2[i]);
    }
    assert(x1 =~= x2);
    assert forall|i: int| 0 <= i < r1.len() implies r1[i] == r2[i] by {
        assert((x1 + seq![','] + r1)[x1.len() + 1 + i] == r1[i]);
        assert((x2 + seq![','] + r2)[x2.len() + 1 + i] == r2[i]);
    }
    assert(r1 =~= r2);
}

/// Splitting at the last comma is unambiguous when the part after it holds no
/// comma.
proof fn lemma_split_last_comma(x1: Seq<char>, z1: Seq<char>, x2: Seq<char>, z2: Seq<char>)
    requires
        x1 + seq![','] + z1 == x2 + seq![','] + z2,
        forall|i: int| 0 <= i < z1.len() ==> z1[i] != ',',
        forall|i: int| 0 <= i < z2.len() ==> z2[i] != ',',
    ensures
        x1 == x2,
        z1 == z2,
{
    let s = x1 + seq![','] + z1;
    assert(s.len() == x1.len() + 1 + z1.len());
    assert(s.len() == x2.len() + 1 + z2.len());
    if z1.len() < z2.len() {
        let pos = x1.len() as int;
        assert(s[pos] == ',');
        assert(s[pos] == z2[pos - x2.len() - 1]);
        assert(false);
    }
    if z2.len() < z1.len() {
        let pos = x2.len() as int;
        assert(s[pos] == ',');
        assert(s[pos] == z1[pos - x1.len() - 1]);
        assert(false);
    }
    assert forall|i: int| 0 <= i < x1.len() implies x1[i] == x2[i] by {
        assert((x1 + seq![','] + z1)[i] == x1[i]);
        assert((x2 + seq![','] + z2)[i] == x2[i]);
    }
    assert(x1 =~= x2);
    assert forall|i: int| 0 <= i < z1.len() implies z1[i] == z2[i] by {
        assert((x1 + seq![','] + z1)[x1.len() + 1 + i] == z1[i]);
        assert((x2 + seq![','] + z2)[x2.len() + 1 + i] == z2[i]);
    }
    assert(z1 =~= z2);
}

/// The canonical encoding is injective: messages that differ in any field
/// value have different fingerprint inputs, so equal fingerprints of
/// differing messages would take an md5 collision.
#[verifier::rlimit(100)]
pub proof fn lemma_encoding_injective(a: Message, b: Message)
    requires
        a.encoding() == b.encoding(),
    ensures
        a.index == b.index,
        a.wday == b.wday,
        a.payload@ == b.payload@,
        a.price_cents == b.price_cents,
        a.user_id == b.user_id,
        a.total_cents == b.total_cents,
{
    let c = seq![','];
    let rest_a = dec_digits(a.wday as int) + c + a.payload@ + c + dec_digits(a.price_cents as int)
        + c + signed_dec_digits(a.user_id as int) + c + dec_digits(a.total_cents as int);
    let rest_b = dec_digits(b.wday as int) + c + b.payload@ + c + dec_digits(b.price_cents as int)
        + c + signed_dec_digits(b.user_id as int) + c + dec_digits(b.total_cents as int);
    assert(a.encoding() =~= signed_dec_digits(a.index as int) + c + rest_a);
    assert(b.encoding() =~= signed_dec_digits(b.index as int) + c + rest_b);
    lemma_signed_dec_no_comma(a.index as int);
    lemma_signed_dec_no_comma(b.index as int);
    lemma_split_first_comma(
        signed_dec_digits(a.index as int),
        rest_a,
        signed_dec_digits(b.index as int),
        rest_b,
    );
    lemma_signed_dec_injective(a.index as int, b.index as int);

    let mid_a = a.payload@ + c + dec_digits(a.price_cents as int) + c + signed_dec_digits(
        a.user_id as int,
    ) + c + dec_digits(a.total_cents as int);
    let mid_b = b.payload@ + c + dec_digits(b.price_cents as int) + c + signed_dec_digits(
        b.user_id as int,
    ) + c + dec_digits(b.total_cents as int);
    assert(rest_a =~= dec_digits(a.wday as int) + c + mid_a);
    assert(rest_b =~= dec_digits(b.wday as int) + c + mid_b);
    lemma_dec_digits_no_comma(a.wday as int);
    lemma_dec_digits_no_comma(b.wday as int);
    lemma_split_first_comma(
        dec_digits(a.wday as int),
        mid_a,
        dec_digits(b.wday as int),
        mid_b,
    );
    lemma_dec_digits_injective(a.wday as int, b.wday as int);

    let left3_a = a.payload@ + c + dec_digits(a.price_cents as int) + c + signed_dec_digits(
        a.user_id as int,
    );
    let left3_b = b.payload@ + c + dec_digits(b.price_cents as int) + c + signed_dec_digits(
        b.user_id as int,
    );
    assert(mid_a =~= left3_a + c + dec_digits(a.total_cents as int));
    assert(mid_b =~= left3_b + c + dec_digits(b.total_cents as int));
    lemma_dec_digits_no_comma(a.total_cents as int);
    lemma_dec_digits_no_comma(b.total_cents as int);
    lemma_split_last_comma(
        left3_a,
        dec_digits(a.total_cents as int),
        left3_b,
        dec_digits(b.total_cents as int),
    );
    lemma_dec_digits_injective(a.total_cents as int, b.total_cents as int);

    let left2_a = a.payload@ + c + dec_digits(a.price_cents as int);
    let left2_b = b.payload@ + c + dec_digits(b.price_cents as int);
    assert(left3_a =~= left2_a + c + signed_dec_digits(a.user_id as int));
    assert(left3_b =~= left2_b + c + signed_dec_digits(b.user_id as int));
    lemma_signed_dec_no_comma(a.user_id as int);
    lemma_signed_dec_no_comma(b.user_id as int);
    lemma_split_last_comma(
        left2_a,
        signed_dec_digits(a.user_id as int),
        left2_b,
        signed_dec_digits(b.user_id as int),
    );
    lemma_signed_dec_injective(a.user_id as int, b.user_id as int);

    lemma_dec_digits_no_comma(a.price_cents as int);
    lemma_dec_digits_no_comma(b.price_cents as int);
    lemma_split_last_comma(
        a.payload@,
        dec_digits(a.price_cents as int),
        b.payload@,
        dec_digits(b.price_cents as int),
    );
    lemma_dec_digits_injective(a.price_cents as int, b.price_cents as int);
}

/// Fingerprint determinism: two messages whose field values agree have the
/// same fingerprint.
pub proof fn lemma_fingerprint_deterministic(a: Message, b: Message)
    requires
        a.index == b.index,
        a.wday == b.wday,
        a.payload@ == b.payload@,
        a.price_cents == b.price_cents,
        a.user_id == b.user_id,
        a.total_cents == b.total_cents,
    ensures
        a.fingerprint_spec() == b.fingerprint_spec(),
{
}

} // verus!
