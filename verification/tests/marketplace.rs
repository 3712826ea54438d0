use autoresearch::binary64::Binary64;
use autoresearch::marketplace::{
    price_by_lift, ArtifactListing, CertifiedAttestation, MarketError, Marketplace, PricingPolicy,
};
use autoresearch::types::{ArtifactRef, Gate, Lift, Measurement};

fn b(x: f64) -> Binary64 {
    Binary64 { bits: x.to_bits() }
}

fn micros(delta: f64) -> u128 {
    (delta * 1_000_000.0).floor() as u128
}

fn good_lift() -> Lift {
    Lift {
        delta: b(0.35),
        ci_lower: b(0.30),
        ci_upper: b(0.40),
        n: 80,
    }
}

fn good_measurement() -> Measurement {
    Measurement {
        value: b(0.85),
        ci_lower: b(0.80),
        ci_upper: b(0.90),
        n: 80,
        cost: b(80.0),
        cost_per_task: b(1.0),
    }
}

fn weak_lift() -> Lift {
    Lift {
        delta: b(0.10),
        ci_lower: b(0.001),
        ci_upper: b(0.20),
        n: 80,
    }
}

fn listing(consented: bool, price: u128, exclusive: bool, lift: Lift) -> ArtifactListing {
    ArtifactListing {
        artifact_ref: ArtifactRef("artifact:winner".into()),
        seller: "0xseller".into(),
        certified_lift: lift,
        price_wei: price,
        license: "exclusive-v1".into(),
        exclusive,
        provenance: 7,
        consented,
        disclose_sub_gate: false,
    }
}

fn attestation_for(lift: Lift, measurement: Measurement) -> CertifiedAttestation {
    CertifiedAttestation {
        artifact_ref: ArtifactRef("artifact:winner".into()),
        provenance: 7,
        certified_lift: lift,
        measurement,
        attestation_hash: "0xattest".into(),
    }
}

#[test]
fn cannot_list_without_consent() {
    let mut market = Marketplace::new();
    let err = market
        .list(
            listing(false, 1_000, true, good_lift()),
            &Gate::default(),
            &attestation_for(good_lift(), good_measurement()),
        )
        .unwrap_err();
    assert_eq!(err, MarketError::Unconsented);
    assert!(market.is_empty(), "a rejected listing must not be stored");
}

#[test]
fn cannot_list_without_a_stated_license() {
    let mut market = Marketplace::new();
    let mut unlicensed = listing(true, 1_000, true, good_lift());
    unlicensed.license = String::new();
    let err = market
        .list(
            unlicensed,
            &Gate::default(),
            &attestation_for(good_lift(), good_measurement()),
        )
        .unwrap_err();
    assert_eq!(err, MarketError::Unconsented);
    assert!(market.is_empty());
}

#[test]
fn cannot_list_at_zero_price() {
    let mut market = Marketplace::new();
    let err = market
        .list(
            listing(true, 0, true, good_lift()),
            &Gate::default(),
            &attestation_for(good_lift(), good_measurement()),
        )
        .unwrap_err();
    assert_eq!(err, MarketError::ZeroPrice);
}

#[test]
fn gate_clearing_artifact_lists_without_disclosure() {
    let mut market = Marketplace::new();
    let id = market
        .list(
            listing(true, 1_000, true, good_lift()),
            &Gate::default(),
            &attestation_for(good_lift(), good_measurement()),
        )
        .expect("a gate-clearing winner lists freely");
    assert_eq!(id, 0);
    assert_eq!(market.len(), 1);
}

#[test]
fn losing_artifact_requires_disclosure() {
    let mut market = Marketplace::new();
    let err = market
        .list(
            listing(true, 1_000, true, weak_lift()),
            &Gate::default(),
            &attestation_for(weak_lift(), good_measurement()),
        )
        .unwrap_err();
    assert_eq!(err, MarketError::UndisclosedSubGate);

    let mut disclosed = listing(true, 1_000, true, weak_lift());
    disclosed.disclose_sub_gate = true;
    let id = market
        .list(
            disclosed,
            &Gate::default(),
            &attestation_for(weak_lift(), good_measurement()),
        )
        .expect("a disclosed losing artifact is listable inventory");
    assert_eq!(id, 0);
}

#[test]
fn forged_lift_listing_is_rejected() {
    let mut market = Marketplace::new();
    let real_lift = weak_lift();
    let forged_lift = good_lift();
    let attestation = attestation_for(real_lift, good_measurement());

    let err = market
        .list(
            listing(true, 5_000, true, forged_lift),
            &Gate::default(),
            &attestation,
        )
        .unwrap_err();
    assert_eq!(err, MarketError::ForgedListing);
    assert!(market.is_empty(), "a forged listing must not be stored");

    let mut wrong_prov = listing(true, 5_000, true, real_lift);
    wrong_prov.provenance = 999;
    assert_eq!(
        market.list(wrong_prov, &Gate::default(), &attestation),
        Err(MarketError::ForgedListing),
    );

    let mut wrong_ref = listing(true, 5_000, true, real_lift);
    wrong_ref.artifact_ref = ArtifactRef("artifact:other".into());
    assert_eq!(
        market.list(wrong_ref, &Gate::default(), &attestation),
        Err(MarketError::ForgedListing),
    );

    let mut honest = listing(true, 5_000, true, real_lift);
    honest.disclose_sub_gate = true;
    market
        .list(honest, &Gate::default(), &attestation)
        .expect("a listing matching the attestation lists");
}

#[test]
fn buy_transfers_provenance_and_certified_lift() {
    let mut market = Marketplace::new();
    let id = market
        .list(
            listing(true, 5_000, true, good_lift()),
            &Gate::default(),
            &attestation_for(good_lift(), good_measurement()),
        )
        .unwrap();
    let sale = market.buy(id, "0xbuyer").unwrap();
    assert_eq!(sale.buyer, "0xbuyer");
    assert_eq!(sale.seller, "0xseller");
    assert_eq!(sale.price_wei, 5_000);
    assert_eq!(sale.provenance, 7);
    assert_eq!(sale.certified_lift, good_lift());
    assert_eq!(market.sales().len(), 1);
    assert!(market.is_sold(id));
}

#[test]
fn exclusive_listing_cannot_be_double_sold() {
    let mut market = Marketplace::new();
    let id = market
        .list(
            listing(true, 5_000, true, good_lift()),
            &Gate::default(),
            &attestation_for(good_lift(), good_measurement()),
        )
        .unwrap();
    market.buy(id, "0xfirst").expect("first buy succeeds");
    let err = market.buy(id, "0xsecond").unwrap_err();
    assert_eq!(err, MarketError::AlreadySold(id));
    assert_eq!(market.sales().len(), 1);
    assert_eq!(market.sales()[0].buyer, "0xfirst");
}

#[test]
fn non_exclusive_listing_can_be_sold_repeatedly() {
    let mut market = Marketplace::new();
    let id = market
        .list(
            listing(true, 5_000, false, good_lift()),
            &Gate::default(),
            &attestation_for(good_lift(), good_measurement()),
        )
        .unwrap();
    market.buy(id, "0xa").unwrap();
    market.buy(id, "0xb").unwrap();
    assert_eq!(
        market.sales().len(),
        2,
        "a non-exclusive license sells again"
    );
}

#[test]
fn buy_unknown_listing_is_rejected() {
    let mut market = Marketplace::new();
    assert_eq!(
        market.buy(0, "0xbuyer"),
        Err(MarketError::UnknownListing(0))
    );
}

#[test]
fn price_is_monotone_in_certified_lift() {
    let policy = PricingPolicy::new(1_000, 10);
    let deltas = [-0.5, 0.0, 0.05, 0.10, 0.20, 0.35, 0.50, 1.0];
    let prices: Vec<u128> = deltas
        .iter()
        .map(|&d| {
            price_by_lift(
                &Lift {
                    delta: b(d),
                    ci_lower: b(d - 0.05),
                    ci_upper: b(d + 0.05),
                    n: 80,
                },
                micros(d),
                &policy,
            )
        })
        .collect();
    for pair in prices.windows(2) {
        assert!(
            pair[1] >= pair[0],
            "price must be non-decreasing in lift: {prices:?}"
        );
    }
    assert_eq!(prices[0], 1_000, "negative lift floors at base");
    assert_eq!(prices[1], 1_000, "zero lift floors at base");
    assert!(prices[2] > 1_000, "positive lift exceeds the floor");
    assert_eq!(prices[5], 350_000u128 * 10 + 1_000);
}

#[test]
fn price_is_fail_closed_on_non_finite_lift() {
    let policy = PricingPolicy::new(1_000, 10);
    for bad in [f64::NAN, f64::INFINITY, f64::NEG_INFINITY] {
        let price = price_by_lift(
            &Lift {
                delta: b(bad),
                ci_lower: b(bad),
                ci_upper: b(bad),
                n: 80,
            },
            micros(bad),
            &policy,
        );
        assert_eq!(
            price, 1_000,
            "non-finite lift must floor at base, not overflow"
        );
    }
}

#[test]
fn price_saturates_instead_of_wrapping() {
    let lift = good_lift();
    assert_eq!(
        price_by_lift(&lift, u128::MAX, &PricingPolicy::new(1, 2)),
        u128::MAX
    );
    assert_eq!(
        price_by_lift(&lift, 1, &PricingPolicy::new(u128::MAX, 1)),
        u128::MAX
    );
}

#[test]
fn a_lift_with_a_nan_matches_nothing_and_zeros_match_bit_for_bit() {
    let mut odd = good_lift();
    odd.ci_upper = b(f64::NAN);
    let attestation = attestation_for(odd, good_measurement());
    assert!(!attestation.matches(&listing(true, 1, false, odd)));
    let mut zero = good_lift();
    zero.ci_lower = b(0.0);
    let mut minus = good_lift();
    minus.ci_lower = b(-0.0);
    let attestation = attestation_for(zero, good_measurement());
    assert!(attestation.matches(&listing(true, 1, false, zero)));
    assert!(!attestation.matches(&listing(true, 1, false, minus)));
}

#[test]
fn listings_read_back_as_they_were_listed() {
    let mut market = Marketplace::default();
    let first = listing(true, 1_000, true, good_lift());
    let mut second = listing(true, 2_000, false, good_lift());
    second.seller = "0xother".into();
    let attestation = attestation_for(good_lift(), good_measurement());
    let a = market.list(first.clone(), &Gate::default(), &attestation).unwrap();
    let z = market.list(second.clone(), &Gate::default(), &attestation).unwrap();
    assert_eq!((a, z), (0, 1));
    assert_eq!(market.listing(a), Some(&first));
    assert_eq!(market.listing(z), Some(&second));
    assert_eq!(market.listing(2), None);
    assert!(!market.is_sold(a));
    assert!(!market.is_sold(9));
    market.buy(a, "0xb").unwrap();
    assert!(market.is_sold(a) && !market.is_sold(z));
    assert_eq!(market.listing(a), Some(&first));
    assert!(!market.is_empty());
}

#[test]
fn every_market_error_has_its_message() {
    assert_eq!(
        MarketError::Unconsented.message(),
        "artifact not listed for sale: the producer has not consented (MECHANISM §10)"
    );
    assert_eq!(
        MarketError::ZeroPrice.message(),
        "listing price must be positive; got zero"
    );
    assert_eq!(
        MarketError::UndisclosedSubGate.message(),
        "certified lift does not clear the promotion gate and the sub-gate status was not disclosed; \
         a losing artifact must be listed with disclosure (MECHANISM §10)"
    );
    assert_eq!(MarketError::UnknownListing(12).message(), "unknown listing 12");
    assert_eq!(
        MarketError::AlreadySold(0).message(),
        "listing 0 is an exclusive license already sold; no double-sell"
    );
    assert_eq!(
        MarketError::ForgedListing.message(),
        "listing does not match the certifying attestation (seller-forged provenance \
         or certified lift); rejected fail-closed (MECHANISM §10)"
    );
}
