use queue_drain::message::Message;

fn sample(payload: &str) -> Message {
    Message {
        index: 7,
        wday: 0,
        payload: payload.to_string(),
        price_cents: 100,
        user_id: 1,
        total_cents: 0,
    }
}

#[test]
fn discount_monday_five_percent() {
    let mut m = sample("x");
    m.wday = 1;
    m.price_cents = 1000;
    m.update_discount();
    assert_eq!(m.total_cents, 950);
}

#[test]
fn discount_no_discount_day() {
    let mut m = sample("x");
    m.wday = 0;
    m.price_cents = 1000;
    m.update_discount();
    assert_eq!(m.total_cents, 1000);
}

#[test]
fn discount_largest_day() {
    let mut m = sample("x");
    m.wday = 6;
    m.price_cents = 1000;
    m.update_discount();
    assert_eq!(m.total_cents, 700);
}

#[test]
fn discount_rounds_half_up() {
    // 990 * 75% = 742.5 hundredths of a unit: half-up gives 743
    let mut m = sample("x");
    m.wday = 5;
    m.price_cents = 990;
    m.update_discount();
    assert_eq!(m.total_cents, 743);
}

#[test]
fn discount_rounds_down_below_half() {
    // 999 * 95% = 949.05: rounds down to 949
    let mut m = sample("x");
    m.wday = 1;
    m.price_cents = 999;
    m.update_discount();
    assert_eq!(m.total_cents, 949);
}

#[test]
fn transform_is_idempotent() {
    let mut once = sample("abc");
    once.wday = 3;
    once.price_cents = 12345;
    once.update_discount();
    let mut twice = sample("abc");
    twice.wday = 3;
    twice.price_cents = 12345;
    twice.update_discount();
    twice.update_discount();
    assert_eq!(once.total_cents, twice.total_cents);
    assert_eq!(once.index, twice.index);
    assert_eq!(once.payload, twice.payload);
}

#[test]
fn canonical_encoding_exact() {
    let m = sample("abc");
    assert_eq!(m.canonical_encoding(), "7,0,abc,100,1,0");
}

#[test]
fn canonical_encoding_negative_fields() {
    let mut m = sample("p");
    m.index = -12;
    m.user_id = -3;
    m.total_cents = 42;
    assert_eq!(m.canonical_encoding(), "-12,0,p,100,-3,42");
}

#[test]
fn signature_matches_md5_of_encoding() {
    let m = sample("abc");
    let expected = format!("{:x}", md5::compute("7,0,abc,100,1,0"));
    let got = m.signature();
    assert_eq!(got, expected);
    assert_eq!(got.len(), 32);
}

#[test]
fn signature_deterministic_for_equal_fields() {
    let a = sample("same");
    let b = sample("same");
    assert_eq!(a.signature(), b.signature());
}

#[test]
fn signature_differs_for_different_fields() {
    let a = sample("same");
    let mut b = sample("same");
    b.user_id = 2;
    assert_ne!(a.signature(), b.signature());
}
