//! The market for certified artifacts: listings bound to what the referee
//! certified, prices by lift, and a ledger of sales.
use crate::amounts::{plus_capped, times_capped, wei_cap};
use crate::text::{decimal, to_decimal};
use crate::types::{ArtifactRef, CompetitionId, Gate, Lift, Measurement};
use crate::binary64::{key_order_is_value_order, Binary64};
use vstd::prelude::*;

verus! {

/// Index of a listing in a [`Marketplace`].
pub type ListingId = usize;

/// Errors of the marketplace.
#[derive(Clone, Copy, Debug, PartialEq, Eq, Structural)]
pub enum MarketError {
    /// The producer did not consent to the listing, or no license is stated.
    Unconsented,
    /// The price is zero.
    ZeroPrice,
    /// The lift does not clear the promotion gate and the listing does not say so.
    UndisclosedSubGate,
    /// There is no such listing.
    UnknownListing(ListingId),
    /// An exclusive listing was already sold.
    AlreadySold(ListingId),
    /// The listing does not match what the referee certified.
    ForgedListing,
}

impl MarketError {
    /// What the error says.
    pub open spec fn said(self) -> Seq<char> {
        match self {
            MarketError::Unconsented => {
                "artifact not listed for sale: the producer has not consented (MECHANISM §10)"@
            },
            MarketError::ZeroPrice => {
                "listing price must be positive; got zero"@
            },
            MarketError::UndisclosedSubGate => {
                "certified lift does not clear the promotion gate and the sub-gate status was not disclosed; a losing artifact must be listed with disclosure (MECHANISM §10)"@
            },
            MarketError::UnknownListing(id) => {
                "unknown listing "@ + decimal(id as nat)
            },
            MarketError::AlreadySold(id) => {
                "listing "@ + decimal(id as nat)
                    + " is an exclusive license already sold; no double-sell"@
            },
            MarketError::ForgedListing => {
                "listing does not match the certifying attestation (seller-forged provenance or certified lift); rejected fail-closed (MECHANISM §10)"@
            },
        }
    }

    /// The error as a message.
    pub fn message(&self) -> (r: String)
        ensures
            r@ == self.said(),
    {
        match self {
            MarketError::Unconsented => "artifact not listed for sale: the producer has not consented (MECHANISM §10)".to_owned(),
            MarketError::ZeroPrice => "listing price must be positive; got zero".to_owned(),
            MarketError::UndisclosedSubGate => "certified lift does not clear the promotion gate and the sub-gate status was not disclosed; a losing artifact must be listed with disclosure (MECHANISM §10)".to_owned(),
            MarketError::UnknownListing(id) => {
                let mut out = "unknown listing ".to_owned();
                out.append(to_decimal(*id as u64).as_str());
                out
            },
            MarketError::AlreadySold(id) => {
                let mut out = "listing ".to_owned();
                out.append(to_decimal(*id as u64).as_str());
                out.append(" is an exclusive license already sold; no double-sell");
                out
            },
            MarketError::ForgedListing => "listing does not match the certifying attestation (seller-forged provenance or certified lift); rejected fail-closed (MECHANISM §10)".to_owned(),
        }
    }
}

/// How a certified lift is priced into wei.
#[derive(Clone, Copy, Debug, PartialEq, Eq, Structural)]
pub struct PricingPolicy {
    /// The price of an artifact without lift.
    pub base_wei: u128,
    /// Wei for each micro-unit of lift above zero.
    pub wei_per_micro_lift: u128,
}

impl PricingPolicy {
    /// A policy of `base_wei` plus `wei_per_micro_lift` for each micro-unit of lift.
    pub fn new(base_wei: u128, wei_per_micro_lift: u128) -> (r: Self)
        ensures
            r.base_wei == base_wei,
            r.wei_per_micro_lift == wei_per_micro_lift,
    {
        PricingPolicy { base_wei, wei_per_micro_lift }
    }

    /// The price of an artifact with `micros` micro-units of lift above zero.
    pub open spec fn price_of(self, micros: int) -> int {
        wei_cap(self.base_wei + wei_cap(micros * self.wei_per_micro_lift))
    }
}

/// The micro-units of lift that are paid for: `delta_micros` where the delta is a
/// positive number, and nothing otherwise.
pub open spec fn priced_micros(delta: Binary64, delta_micros: u128) -> int {
    if delta.finite() && delta.positive() {
        delta_micros as int
    } else {
        0
    }
}

/// Prices a certified lift. `delta_micros` is the delta in whole micro-units, rounded
/// down; it counts only where the delta is finite and positive.
pub fn price_by_lift(lift: &Lift, delta_micros: u128, policy: &PricingPolicy) -> (price: u128)
    ensures
        price == policy.price_of(priced_micros(lift.delta, delta_micros)),
        price >= policy.base_wei,
{
    let micros: u128 = if lift.delta.is_finite() && lift.delta.is_positive() {
        delta_micros
    } else {
        0
    };
    proof {
        assert(micros * policy.wei_per_micro_lift >= 0) by (nonlinear_arith)
            requires
                micros >= 0,
                policy.wei_per_micro_lift >= 0,
        ;
    }
    let component: u128 = times_capped(micros, policy.wei_per_micro_lift);
    plus_capped(policy.base_wei, component)
}

/// A stronger artifact never prices below a weaker one, and one without lift prices
/// at the base.
pub proof fn price_is_monotone(policy: PricingPolicy, weaker: int, stronger: int)
    requires
        0 <= weaker <= stronger,
    ensures
        policy.price_of(weaker) <= policy.price_of(stronger),
        policy.price_of(0) == policy.base_wei,
{
    let rate = policy.wei_per_micro_lift as int;
    assert(0 <= weaker * rate <= stronger * rate) by (nonlinear_arith)
        requires
            0 <= weaker <= stronger,
            rate >= 0,
    ;
    assert(0 * rate == 0) by (nonlinear_arith);
}

/// The same number, bit for bit, and not a NaN.
pub open spec fn same_number(a: Binary64, b: Binary64) -> bool {
    a.bits == b.bits && !a.nan()
}

/// Every field is the same; a lift that holds a NaN matches nothing.
pub open spec fn same_lift(a: Lift, b: Lift) -> bool {
    &&& same_number(a.delta, b.delta)
    &&& same_number(a.ci_lower, b.ci_lower)
    &&& same_number(a.ci_upper, b.ci_upper)
    &&& a.n == b.n
}

fn numbers_match(a: Binary64, b: Binary64) -> (r: bool)
    ensures
        r == same_number(a, b),
{
    a.bits == b.bits && !a.is_nan()
}

fn lifts_match(a: &Lift, b: &Lift) -> (r: bool)
    ensures
        r == same_lift(*a, *b),
{
    numbers_match(a.delta, b.delta) && numbers_match(a.ci_lower, b.ci_lower) && numbers_match(
        a.ci_upper,
        b.ci_upper,
    ) && a.n == b.n
}

/// The referee's certification of an artifact, against which a listing is held.
#[derive(Clone, Debug, PartialEq)]
pub struct CertifiedAttestation {
    /// The artifact that was certified.
    pub artifact_ref: ArtifactRef,
    /// The competition that certified it.
    pub provenance: CompetitionId,
    /// The certified lift.
    pub certified_lift: Lift,
    /// The measurement behind the lift.
    pub measurement: Measurement,
    /// Hash of the attestation under which scoring ran.
    pub attestation_hash: String,
}

impl CertifiedAttestation {
    /// The listing claims the artifact, the provenance and the lift that were
    /// certified.
    pub open spec fn backs(self, listing: ArtifactListing) -> bool {
        &&& listing.artifact_ref@ == self.artifact_ref@
        &&& listing.provenance == self.provenance
        &&& same_lift(listing.certified_lift, self.certified_lift)
    }

    /// Whether a listing claims what was certified.
    pub fn matches(&self, listing: &ArtifactListing) -> (r: bool)
        ensures
            r == self.backs(*listing),
    {
        listing.artifact_ref.0 == self.artifact_ref.0 && listing.provenance == self.provenance
            && lifts_match(&listing.certified_lift, &self.certified_lift)
    }
}

/// A certified artifact listed for sale.
#[derive(Clone, Debug, PartialEq)]
pub struct ArtifactListing {
    /// The artifact for sale.
    pub artifact_ref: ArtifactRef,
    /// Who sells it.
    pub seller: String,
    /// The lift that it carries.
    pub certified_lift: Lift,
    /// Asking price in wei.
    pub price_wei: u128,
    /// The stated license terms; a listing without any is refused.
    pub license: String,
    /// Whether it may be sold at most once.
    pub exclusive: bool,
    /// The competition that certified it.
    pub provenance: CompetitionId,
    /// The producer's consent to list.
    pub consented: bool,
    /// Whether the seller discloses that it did not clear its gate.
    pub disclose_sub_gate: bool,
}

impl ArtifactListing {
    /// The producer consents, and the license terms are stated.
    pub open spec fn offered(self) -> bool {
        self.consented && self.license@.len() > 0
    }

    /// Whether the listing's lift clears `gate`.
    pub fn clears_gate(&self, gate: &Gate, measurement: &Measurement) -> (r: bool)
        ensures
            r == gate.cleared_by(self.certified_lift, *measurement),
    {
        gate.clears(&self.certified_lift, measurement)
    }
}

/// Why a listing is refused, if it is: it must be what was certified, be consented
/// to under a stated license, have a price, and disclose a lift that does not clear the
/// promotion gate.
pub open spec fn listing_fault(
    listing: ArtifactListing,
    gate: Gate,
    attestation: CertifiedAttestation,
) -> Option<MarketError> {
    if !attestation.backs(listing) {
        Some(MarketError::ForgedListing)
    } else if !listing.offered() {
        Some(MarketError::Unconsented)
    } else if listing.price_wei == 0 {
        Some(MarketError::ZeroPrice)
    } else if !gate.cleared_by(listing.certified_lift, attestation.measurement)
        && !listing.disclose_sub_gate {
        Some(MarketError::UndisclosedSubGate)
    } else {
        None
    }
}

/// A completed sale.
#[derive(Debug, PartialEq)]
pub struct Sale {
    pub listing: ListingId,
    pub artifact_ref: ArtifactRef,
    pub seller: String,
    pub buyer: String,
    pub price_wei: u128,
    /// The provenance that the buyer takes over.
    pub provenance: CompetitionId,
    /// The certified lift that the buyer takes over.
    pub certified_lift: Lift,
}

impl Clone for Sale {
    fn clone(&self) -> (r: Self)
        ensures
            r == *self,
    {
        Sale {
            listing: self.listing,
            artifact_ref: self.artifact_ref.clone(),
            seller: self.seller.clone(),
            buyer: self.buyer.clone(),
            price_wei: self.price_wei,
            provenance: self.provenance,
            certified_lift: self.certified_lift,
        }
    }
}

impl Sale {
    /// The sale hands listing `id` on to `buyer` as it was listed.
    pub open spec fn hands_on(self, id: ListingId, listing: ArtifactListing, buyer: Seq<char>) -> bool {
        &&& self.listing == id
        &&& self.artifact_ref@ == listing.artifact_ref@
        &&& self.seller@ == listing.seller@
        &&& self.buyer@ == buyer
        &&& self.price_wei == listing.price_wei
        &&& self.provenance == listing.provenance
        &&& self.certified_lift == listing.certified_lift
    }
}

/// A marketplace of certified artifacts: the list and buy rules and the ledger of
/// sales.
#[derive(Clone, Debug)]
pub struct Marketplace {
    listings: Vec<ArtifactListing>,
    sold: Vec<bool>,
    sales: Vec<Sale>,
}

/// What a marketplace holds: the listings and the sales, each in order.
pub struct MarketView {
    pub listings: Seq<ArtifactListing>,
    pub sales: Seq<Sale>,
}

impl MarketView {
    /// How often listing `id` was sold.
    pub open spec fn times_sold(self, id: int) -> nat {
        sales_of(self.sales, id)
    }

    /// Whether listing `id` was sold.
    pub open spec fn was_sold(self, id: int) -> bool {
        self.times_sold(id) > 0
    }

    /// Why listing `id` cannot be bought, if it cannot.
    pub open spec fn buy_fault(self, id: ListingId) -> Option<MarketError> {
        if id >= self.listings.len() {
            Some(MarketError::UnknownListing(id))
        } else if self.listings[id as int].exclusive && self.was_sold(id as int) {
            Some(MarketError::AlreadySold(id))
        } else {
            None
        }
    }

    /// Every sale is of a listing, as it was listed, and no exclusive listing was
    /// sold twice.
    pub open spec fn lawful(self) -> bool {
        &&& forall|i: int|
            0 <= i < self.sales.len() ==> {
                &&& (#[trigger] self.sales[i]).listing < self.listings.len()
                &&& self.sales[i].hands_on(
                    self.sales[i].listing,
                    self.listings[self.sales[i].listing as int],
                    self.sales[i].buyer@,
                )
            }
        &&& forall|id: int|
            0 <= id < self.listings.len() && self.listings[id].exclusive ==> #[trigger] sales_of(
                self.sales,
                id,
            ) <= 1
        &&& forall|id: int|
            0 <= id < self.listings.len() ==> (#[trigger] self.listings[id]).offered()
                && self.listings[id].price_wei > 0
    }
}

/// How many of `sales` are of listing `id`.
pub open spec fn sales_of(sales: Seq<Sale>, id: int) -> nat
    decreases sales.len(),
{
    if sales.len() == 0 {
        0
    } else {
        sales_of(sales.drop_last(), id) + (if sales.last().listing == id {
            1nat
        } else {
            0
        })
    }
}

impl View for Marketplace {
    type V = MarketView;

    closed spec fn view(&self) -> MarketView {
        MarketView { listings: self.listings@, sales: self.sales@ }
    }
}

impl Marketplace {
    /// The sold flags agree with the ledger, and the ledger is lawful.
    pub closed spec fn wf(self) -> bool {
        &&& self.sold@.len() == self.listings@.len()
        &&& forall|i: int|
            0 <= i < self.sold@.len() ==> #[trigger] self.sold@[i] == (sales_of(self.sales@, i) > 0)
        &&& self@.lawful()
    }

    /// What holds of every marketplace that the operations produce: each sale is of a
    /// listing as it was listed, an exclusive listing is sold at most once, and
    /// every listing is consented to under a stated license and has a price.
    pub proof fn wf_is_lawful(self)
        requires
            self.wf(),
        ensures
            self@.lawful(),
    {
    }

    /// An empty marketplace.
    pub fn new() -> (r: Self)
        ensures
            r.wf(),
            r@.listings.len() == 0,
            r@.sales.len() == 0,
    {
        Marketplace { listings: Vec::new(), sold: Vec::new(), sales: Vec::new() }
    }

    /// Lists a certified artifact for sale, held against the referee's certification.
    pub fn list(
        &mut self,
        listing: ArtifactListing,
        gate: &Gate,
        attestation: &CertifiedAttestation,
    ) -> (r: Result<ListingId, MarketError>)
        requires
            old(self).wf(),
        ensures
            final(self).wf(),
            final(self)@.sales == old(self)@.sales,
            match r {
                Ok(id) => {
                    &&& listing_fault(listing, *gate, *attestation) is None
                    &&& id == old(self)@.listings.len()
                    &&& final(self)@.listings == old(self)@.listings.push(listing)
                },
                Err(e) => {
                    &&& listing_fault(listing, *gate, *attestation) == Some(e)
                    &&& final(self)@ == old(self)@
                },
            },
            r is Ok ==> gate.cleared_by(listing.certified_lift, attestation.measurement)
                || listing.disclose_sub_gate,
    {
        if !attestation.matches(&listing) {
            return Err(MarketError::ForgedListing);
        }
        if !listing.consented || listing.license.as_str().is_empty() {
            return Err(MarketError::Unconsented);
        }
        if listing.price_wei == 0 {
            return Err(MarketError::ZeroPrice);
        }
        if !listing.clears_gate(gate, &attestation.measurement) && !listing.disclose_sub_gate {
            return Err(MarketError::UndisclosedSubGate);
        }
        let id: usize = self.listings.len();
        proof {
            lemma_listing_stays_lawful(self@, listing);
        }
        self.listings.push(listing);
        self.sold.push(false);
        Ok(id)
    }

    /// Buys a listing, records the sale and hands provenance and lift on to the
    /// buyer. An exclusive listing sells once.
    pub fn buy(&mut self, id: ListingId, buyer: &str) -> (r: Result<Sale, MarketError>)
        requires
            old(self).wf(),
        ensures
            final(self).wf(),
            final(self)@.listings == old(self)@.listings,
            match r {
                Ok(sale) => {
                    &&& old(self)@.buy_fault(id) is None
                    &&& sale.hands_on(id, old(self)@.listings[id as int], buyer@)
                    &&& final(self)@.sales == old(self)@.sales.push(sale)
                },
                Err(e) => {
                    &&& old(self)@.buy_fault(id) == Some(e)
                    &&& final(self)@ == old(self)@
                },
            },
    {
        if id >= self.listings.len() {
            return Err(MarketError::UnknownListing(id));
        }
        if self.listings[id].exclusive && self.sold[id] {
            return Err(MarketError::AlreadySold(id));
        }
        let sale = Sale {
            listing: id,
            artifact_ref: self.listings[id].artifact_ref.clone(),
            seller: self.listings[id].seller.clone(),
            buyer: buyer.to_owned(),
            price_wei: self.listings[id].price_wei,
            provenance: self.listings[id].provenance,
            certified_lift: self.listings[id].certified_lift,
        };
        self.sold.set(id, true);
        self.sales.push(sale.clone());
        proof {
            lemma_sale_stays_lawful(old(self)@, id, sale);
        }
        Ok(sale)
    }

    /// A listing by id.
    pub fn listing(&self, id: ListingId) -> (r: Option<&ArtifactListing>)
        ensures
            match r {
                Some(l) => id < self@.listings.len() && *l == self@.listings[id as int],
                None => id >= self@.listings.len(),
            },
    {
        if id < self.listings.len() {
            Some(&self.listings[id])
        } else {
            None
        }
    }

    /// Whether a listing was sold at least once.
    pub fn is_sold(&self, id: ListingId) -> (r: bool)
        requires
            self.wf(),
        ensures
            r == self@.was_sold(id as int),
    {
        if id < self.sold.len() {
            self.sold[id]
        } else {
            proof {
                let m = self@;
                assert(m.lawful());
                lemma_no_sales_beyond(m.sales, id as int);
            }
            false
        }
    }

    /// The ledger of sales, in order.
    pub fn sales(&self) -> (r: &[Sale])
        ensures
            r@ == self@.sales,
    {
        self.sales.as_slice()
    }

    /// Number of listings.
    pub fn len(&self) -> (r: usize)
        ensures
            r == self@.listings.len(),
    {
        self.listings.len()
    }

    /// Whether there are no listings.
    pub fn is_empty(&self) -> (r: bool)
        ensures
            r == (self@.listings.len() == 0),
    {
        self.listings.len() == 0
    }
}

proof fn lemma_no_sales_beyond(sales: Seq<Sale>, id: int)
    requires
        forall|i: int| 0 <= i < sales.len() ==> (#[trigger] sales[i]).listing != id,
    ensures
        sales_of(sales, id) == 0,
    decreases sales.len(),
{
    if sales.len() > 0 {
        assert(sales[sales.len() - 1].listing != id);
        lemma_no_sales_beyond(sales.drop_last(), id);
    }
}

proof fn lemma_listing_stays_lawful(m: MarketView, listing: ArtifactListing)
    requires
        m.lawful(),
        listing.offered(),
        listing.price_wei > 0,
    ensures
        (MarketView { listings: m.listings.push(listing), sales: m.sales }).lawful(),
        sales_of(m.sales, m.listings.len() as int) == 0,
{
    let after = MarketView { listings: m.listings.push(listing), sales: m.sales };
    assert forall|i: int| 0 <= i < m.sales.len() implies (#[trigger] m.sales[i]).listing
        < m.listings.len() && after.sales[i].hands_on(
        after.sales[i].listing,
        after.listings[after.sales[i].listing as int],
        after.sales[i].buyer@,
    ) by {}
    lemma_no_sales_beyond(m.sales, m.listings.len() as int);
    assert forall|id: int|
        0 <= id < after.listings.len() && after.listings[id].exclusive implies #[trigger] sales_of(
        after.sales,
        id,
    ) <= 1 by {
        if id < m.listings.len() {
            assert(m.listings[id].exclusive);
        }
    }
    assert forall|id: int| 0 <= id < after.listings.len() implies (
    #[trigger] after.listings[id]).offered() && after.listings[id].price_wei > 0 by {
        if id < m.listings.len() {
            assert(m.listings[id].offered());
        }
    }
}

proof fn lemma_sale_stays_lawful(m: MarketView, id: ListingId, sale: Sale)
    requires
        m.lawful(),
        m.buy_fault(id) is None,
        sale.hands_on(id, m.listings[id as int], sale.buyer@),
    ensures
        (MarketView { listings: m.listings, sales: m.sales.push(sale) }).lawful(),
        forall|i: int|
            #[trigger] sales_of(m.sales.push(sale), i) == sales_of(m.sales, i) + (if i == id {
                1nat
            } else {
                0
            }),
{
    let after = MarketView { listings: m.listings, sales: m.sales.push(sale) };
    assert(after.sales.drop_last() =~= m.sales);
    assert forall|i: int| 0 <= i < after.sales.len() implies (#[trigger] after.sales[i]).listing
        < after.listings.len() && after.sales[i].hands_on(
        after.sales[i].listing,
        after.listings[after.sales[i].listing as int],
        after.sales[i].buyer@,
    ) by {
        if i < m.sales.len() {
            assert(m.sales[i].listing < m.listings.len());
        }
    }
    assert forall|k: int|
        0 <= k < after.listings.len() && after.listings[k].exclusive implies #[trigger] sales_of(
        after.sales,
        k,
    ) <= 1 by {
        assert(sales_of(m.sales, k) <= 1);
    }
}

impl Default for Marketplace {
    fn default() -> (r: Self)
        ensures
            r.wf(),
            r@.listings.len() == 0,
            r@.sales.len() == 0,
    {
        Marketplace::new()
    }
}

// --- What the market promises, in plain terms --------------------------------

/// A listing is accepted exactly where the artifact, the provenance and every number of
/// the lift are those that were certified, the producer consents, a license is stated,
/// there is a price, and the lift clears the promotion gate with the certified
/// measurement or the listing says that it does not. This holds of exclusive listings
/// and of any other.
pub proof fn only_sound_listings_are_accepted(
    listing: ArtifactListing,
    gate: Gate,
    attestation: CertifiedAttestation,
)
    ensures
        ({
            let (mine, certified) = (listing.certified_lift, attestation.certified_lift);
            let genuine = {
                &&& listing.artifact_ref@ == attestation.artifact_ref@
                &&& listing.provenance == attestation.provenance
                &&& mine.delta.bits == certified.delta.bits && !mine.delta.nan()
                &&& mine.ci_lower.bits == certified.ci_lower.bits && !mine.ci_lower.nan()
                &&& mine.ci_upper.bits == certified.ci_upper.bits && !mine.ci_upper.nan()
                &&& mine.n == certified.n
            };
            let offered = listing.consented && listing.license@.len() > 0;
            let told = gate.cleared_by(mine, attestation.measurement) || listing.disclose_sub_gate;
            let fault = listing_fault(listing, gate, attestation);
            &&& fault is None <==> genuine && offered && listing.price_wei > 0 && told
            &&& fault == Some(MarketError::ForgedListing) <==> !genuine
            &&& fault == Some(MarketError::Unconsented) <==> genuine && !offered
            &&& fault == Some(MarketError::ZeroPrice) <==> genuine && offered && listing.price_wei
                == 0
            &&& fault == Some(MarketError::UndisclosedSubGate) <==> genuine && offered
                && listing.price_wei > 0 && !told
        }),
{
}

proof fn lemma_sales_are_counted(sales: Seq<Sale>, id: int)
    ensures
        sales_of(sales, id) == sales.filter(|s: Sale| s.listing == id).len(),
        sales_of(sales, id) > 0 <==> exists|i: int|
            0 <= i < sales.len() && (#[trigger] sales[i]).listing == id,
    decreases sales.len(),
{
    reveal(Seq::filter);
    if sales.len() > 0 {
        let front = sales.drop_last();
        lemma_sales_are_counted(front, id);
        if exists|i: int| 0 <= i < front.len() && (#[trigger] front[i]).listing == id {
            let i = choose|i: int| 0 <= i < front.len() && (#[trigger] front[i]).listing == id;
            assert(sales[i].listing == id);
        }
        if exists|i: int| 0 <= i < sales.len() && (#[trigger] sales[i]).listing == id {
            let i = choose|i: int| 0 <= i < sales.len() && (#[trigger] sales[i]).listing == id;
            if i < front.len() {
                assert(front[i].listing == id);
            } else {
                assert(sales[i] == sales.last());
            }
        }
        if sales.last().listing == id {
            assert(sales[sales.len() - 1].listing == id);
        }
    }
}

/// A listing can be bought exactly where there is one and, if it is exclusive, no sale of
/// it stands in the ledger; one that is not exclusive sells as often as it is bought.
pub proof fn only_what_is_left_can_be_bought(market: MarketView, id: ListingId)
    ensures
        ({
            let sold = exists|i: int|
                0 <= i < market.sales.len() && (#[trigger] market.sales[i]).listing == id;
            let fault = market.buy_fault(id);
            &&& market.was_sold(id as int) <==> sold
            &&& fault == Some(MarketError::UnknownListing(id)) <==> id >= market.listings.len()
            &&& fault == Some(MarketError::AlreadySold(id)) <==> id < market.listings.len()
                && market.listings[id as int].exclusive && sold
            &&& fault is None <==> id < market.listings.len() && !(
            market.listings[id as int].exclusive && sold)
        }),
{
    lemma_sales_are_counted(market.sales, id as int);
}

/// No exclusive listing is sold twice: no two sales of a sound ledger are of the same
/// one.
pub proof fn an_exclusive_listing_sells_once(market: MarketView, i: int, j: int)
    requires
        market.lawful(),
        0 <= i < j < market.sales.len(),
        market.sales[i].listing == market.sales[j].listing,
    ensures
        market.sales[i].listing < market.listings.len(),
        !market.listings[market.sales[i].listing as int].exclusive,
{
    let id = market.sales[i].listing as int;
    lemma_two_sales(market.sales, id, i, j);
    assert(sales_of(market.sales, id) >= 2);
}

proof fn lemma_two_sales(sales: Seq<Sale>, id: int, i: int, j: int)
    requires
        0 <= i < j < sales.len(),
        sales[i].listing == id,
        sales[j].listing == id,
    ensures
        sales_of(sales, id) >= 2,
    decreases sales.len(),
{
    let front = sales.drop_last();
    if j < front.len() {
        lemma_two_sales(front, id, i, j);
    } else {
        lemma_sales_are_counted(front, id);
        assert(front[i].listing == id);
    }
}

/// A sale hands on what was listed: the artifact, the seller, the price, the provenance
/// and the certified lift of the listing, to the buyer who bought it.
pub proof fn a_sale_is_of_what_was_listed(
    sale: Sale,
    id: ListingId,
    listing: ArtifactListing,
    buyer: Seq<char>,
)
    requires
        sale.hands_on(id, listing, buyer),
    ensures
        sale.listing == id,
        sale.artifact_ref@ == listing.artifact_ref@,
        sale.seller@ == listing.seller@,
        sale.buyer@ == buyer,
        sale.price_wei == listing.price_wei,
        sale.provenance == listing.provenance,
        sale.certified_lift == listing.certified_lift,
{
}

/// What stands in a sound market was consented to under a stated license and has a
/// price, and every sale is of a listing at the price that it was listed for.
pub proof fn a_sound_market_holds_only_what_was_offered(market: MarketView, id: int, i: int)
    requires
        market.lawful(),
    ensures
        0 <= id < market.listings.len() ==> market.listings[id].consented
            && market.listings[id].license@.len() > 0 && market.listings[id].price_wei > 0,
        0 <= i < market.sales.len() ==> market.sales[i].listing < market.listings.len()
            && market.sales[i].price_wei == market.listings[market.sales[i].listing as int].price_wei
            && market.sales[i].seller@ == market.listings[market.sales[i].listing as int].seller@,
{
    if 0 <= id < market.listings.len() {
        assert(market.listings[id].offered());
    }
}

/// A price is the base and, for a lift that is a positive number, the rate for each of
/// its micro-units; a lift that is not pays the base alone. What does not fit is cut to
/// what does.
pub proof fn a_price_is_the_base_and_the_rate(
    policy: PricingPolicy,
    delta: Binary64,
    delta_micros: u128,
)
    ensures
        ({
            let price = policy.price_of(priced_micros(delta, delta_micros));
            let counted = delta.finite() && delta.positive();
            let whole = policy.base_wei + delta_micros * policy.wei_per_micro_lift;
            &&& !counted ==> price == policy.base_wei
            &&& counted && whole <= u128::MAX ==> price == whole
            &&& counted && whole > u128::MAX ==> price == u128::MAX
        }),
{
    let rate = policy.wei_per_micro_lift as int;
    assert(0 * rate == 0) by (nonlinear_arith);
    assert(delta_micros * rate >= 0) by (nonlinear_arith)
        requires
            delta_micros >= 0,
            rate >= 0,
    ;
}

// --- What the operations do --------------------------------------------------

/// A market takes a listing exactly where it is what was certified, is consented to under
/// a stated license, has a price, and clears the promotion gate or says that it does not.
/// One that is taken stands last and is told by its place; one that is refused changes
/// nothing. No sale is touched.
pub proof fn a_market_takes_only_sound_listings(
    market: &mut Marketplace,
    listing: ArtifactListing,
    gate: &Gate,
    attestation: &CertifiedAttestation,
    r: Result<ListingId, MarketError>,
)
    requires
        old(market).wf(),
        call_ensures(Marketplace::list, (market, listing, gate, attestation), r),
    ensures
        ({
            let (mine, certified) = (listing.certified_lift, attestation.certified_lift);
            let genuine = {
                &&& listing.artifact_ref@ == attestation.artifact_ref@
                &&& listing.provenance == attestation.provenance
                &&& mine.delta.bits == certified.delta.bits && !mine.delta.nan()
                &&& mine.ci_lower.bits == certified.ci_lower.bits && !mine.ci_lower.nan()
                &&& mine.ci_upper.bits == certified.ci_upper.bits && !mine.ci_upper.nan()
                &&& mine.n == certified.n
            };
            let offered = listing.consented && listing.license@.len() > 0;
            let told = gate.cleared_by(mine, attestation.measurement) || listing.disclose_sub_gate;
            &&& r is Ok <==> genuine && offered && listing.price_wei > 0 && told
            &&& !genuine ==> r == Err::<ListingId, MarketError>(MarketError::ForgedListing)
            &&& genuine && !offered ==> r == Err::<ListingId, MarketError>(
                MarketError::Unconsented,
            )
            &&& genuine && offered && listing.price_wei == 0 ==> r == Err::<
                ListingId,
                MarketError,
            >(MarketError::ZeroPrice)
            &&& genuine && offered && listing.price_wei > 0 && !told ==> r == Err::<
                ListingId,
                MarketError,
            >(MarketError::UndisclosedSubGate)
        }),
        r matches Ok(id) ==> {
            &&& id == old(market)@.listings.len()
            &&& final(market)@.listings == old(market)@.listings.push(listing)
        },
        r is Err ==> final(market)@.listings == old(market)@.listings,
        final(market)@.sales == old(market)@.sales,
{
    only_sound_listings_are_accepted(listing, *gate, *attestation);
}

/// A market sells what it lists, at the listed price, and an exclusive listing only where
/// no sale of it stands in the ledger. The sale is added to the ledger; a refused one
/// changes nothing. No listing is touched.
pub proof fn a_market_sells_what_is_left(
    market: &mut Marketplace,
    id: ListingId,
    buyer: &str,
    r: Result<Sale, MarketError>,
)
    requires
        old(market).wf(),
        call_ensures(Marketplace::buy, (market, id, buyer), r),
    ensures
        ({
            let listings = old(market)@.listings;
            let sales = old(market)@.sales;
            let sold = exists|i: int|
                0 <= i < sales.len() && (#[trigger] sales[i]).listing == id;
            &&& r is Ok <==> id < listings.len() && !(listings[id as int].exclusive && sold)
            &&& id >= listings.len() ==> r == Err::<Sale, MarketError>(
                MarketError::UnknownListing(id),
            )
            &&& id < listings.len() && listings[id as int].exclusive && sold ==> r == Err::<
                Sale,
                MarketError,
            >(MarketError::AlreadySold(id))
            &&& r matches Ok(sale) ==> {
                &&& final(market)@.sales == sales.push(sale)
                &&& sale.listing == id
                &&& sale.buyer@ == buyer@
                &&& sale.seller@ == listings[id as int].seller@
                &&& sale.price_wei == listings[id as int].price_wei
                &&& sale.artifact_ref@ == listings[id as int].artifact_ref@
                &&& sale.provenance == listings[id as int].provenance
                &&& sale.certified_lift == listings[id as int].certified_lift
            }
            &&& r is Err ==> final(market)@.sales == sales
            &&& final(market)@.listings == listings
        }),
{
    let before = old(market)@;
    only_what_is_left_can_be_bought(before, id);
    if let Ok(sale) = r {
        a_sale_is_of_what_was_listed(sale, id, before.listings[id as int], buyer@);
    }
}

/// What a market tells of itself: a listing is there exactly where its place is taken, it
/// was sold exactly where a sale of it stands in the ledger, and what is counted is every
/// listing.
pub proof fn a_market_tells_what_it_holds(
    market: &Marketplace,
    id: ListingId,
    listing: Option<&ArtifactListing>,
    sold: bool,
    sales: &[Sale],
    n: usize,
    empty: bool,
)
    requires
        market.wf(),
        call_ensures(Marketplace::listing, (market, id), listing),
        call_ensures(Marketplace::is_sold, (market, id), sold),
        call_ensures(Marketplace::sales, (market,), sales),
        call_ensures(Marketplace::len, (market,), n),
        call_ensures(Marketplace::is_empty, (market,), empty),
    ensures
        n == market@.listings.len(),
        empty <==> n == 0,
        listing is Some <==> id < n,
        listing matches Some(l) ==> *l == market@.listings[id as int],
        sales@ == market@.sales,
        sold <==> exists|i: int| 0 <= i < sales@.len() && (#[trigger] sales@[i]).listing == id,
{
    only_what_is_left_can_be_bought(market@, id);
}

/// A lift is priced at the base and, where it is a positive number, the rate for each of
/// its micro-units, as far as that can be held.
pub proof fn a_lift_is_priced_by_its_micros(
    lift: &Lift,
    delta_micros: u128,
    policy: &PricingPolicy,
    price: u128,
)
    requires
        call_ensures(price_by_lift, (lift, delta_micros, policy), price),
    ensures
        ({
            let whole = policy.base_wei + delta_micros * policy.wei_per_micro_lift;
            let counted = lift.delta.finite() && lift.delta.scaled() > 0;
            &&& !counted ==> price == policy.base_wei
            &&& counted && whole <= u128::MAX ==> price == whole
            &&& counted && whole > u128::MAX ==> price == u128::MAX
        }),
{
    a_price_is_the_base_and_the_rate(*policy, lift.delta, delta_micros);
    if lift.delta.finite() {
        key_order_is_value_order(lift.delta, lift.delta);
    }
}

} // verus!
