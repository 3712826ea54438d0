//! The in-process host of sandboxes: a stand-in that runs the method as plain logic.
//!
//! No container is created. The host honours the backend of a request (an enclave
//! gets a synthetic report) but does the compute itself.
use crate::attestation::{AttestationReport, ReportView, TeeType};
use crate::encoding::copy_bytes;
use crate::keyed::{distinct_keys, lemma_table_absent, lemma_table_push, lemma_table_row, table};
use crate::sandbox::{
    HandleView, ProvisionView, SandboxBackend, SandboxError, SandboxHandle, SandboxHost,
    SandboxProvisionReq,
};
use crate::text::{begins_with, numeral, padded_hex, same_text, to_padded_hex};
use crate::traits::EngineContext;
use crate::types::ArtifactRef;
use vstd::prelude::*;
use vstd::utf8::encode_utf8;

verus! {

/// A deterministic in-process method: the stand-in for a researcher's submission.
pub trait LocalMethod: Send + Sync {
    /// The candidate that the method produces.
    type Artifact: Clone + Send + Sync;

    /// Runs the method that `method` refers to.
    fn run(&self, method: &ArtifactRef, ctx: &EngineContext) -> Result<Self::Artifact, SandboxError>;
}

/// The in-process host around a method. It keeps the candidates that its sandboxes
/// have produced and not yet given up.
pub struct LocalSandboxHost<M: LocalMethod> {
    method: M,
    store: Vec<(String, M::Artifact)>,
    counter: u64,
}

/// What an in-process host holds.
#[verifier::ext_equal]
pub struct LocalView<M, A> {
    pub method: M,
    /// The candidates, by the text of their references.
    pub candidates: Map<Seq<char>, A>,
    /// How many ids have been given out.
    pub issued: nat,
}

/// The id of the sandbox that is the `n`-th thing to be given an id.
pub open spec fn local_id(n: nat) -> Seq<char> {
    "local-sandbox-"@ + padded_hex(n, 8)
}

/// What the references of a sandbox's candidates begin with.
pub open spec fn candidate_prefix(id: Seq<char>) -> Seq<char> {
    "sandbox-candidate:"@ + id + ":"@
}

/// The reference of the candidate that is the `n`-th thing to be given an id.
pub open spec fn candidate_name(id: Seq<char>, n: nat) -> Seq<char> {
    candidate_prefix(id) + padded_hex(n, 8)
}

/// The reference was given out before `limit` was passed.
pub open spec fn issued_by(key: Seq<char>, limit: nat) -> bool {
    exists|id: Seq<char>, n: nat| n <= limit && key == #[trigger] candidate_name(id, n)
}

/// The report of an in-process stand-in for an enclave.
pub open spec fn stand_in_report(tee_type: TeeType) -> ReportView {
    ReportView {
        tee_type,
        evidence: encode_utf8("local-sandbox-stand-in:"@ + tee_type.name()),
        measurement: encode_utf8("local-sandbox:no-enclave"@),
        nonce: None,
    }
}

/// The handle of the sandbox that is the `n`-th thing to be given an id.
pub open spec fn local_handle(n: nat, backend: SandboxBackend) -> HandleView {
    HandleView {
        id: local_id(n),
        sidecar_url: "inproc://"@ + local_id(n),
        backend,
        tee_attestation: match backend {
            SandboxBackend::Tee(t) => Some(stand_in_report(t)),
            _ => None,
        },
    }
}

/// The candidates whose references do not begin with `prefix`.
pub open spec fn dropping<A>(m: Map<Seq<char>, A>, prefix: Seq<char>) -> Map<Seq<char>, A> {
    Map::new(|k: Seq<char>| m.dom().contains(k) && !prefix.is_prefix_of(k), |k: Seq<char>| m[k])
}

// --- Ids --------------------------------------------------------------------

spec fn hex_digit(c: char) -> bool {
    48 <= c as u32 <= 57 || 97 <= c as u32 <= 102
}

spec fn hex_digit_value(c: char) -> nat {
    if c as u32 <= 57 {
        (c as u32 - 48) as nat
    } else {
        (c as u32 - 87) as nat
    }
}

spec fn hex_value(s: Seq<char>) -> nat
    decreases s.len(),
{
    if s.len() == 0 {
        0
    } else {
        hex_value(s.drop_last()) * 16 + hex_digit_value(s.last())
    }
}

proof fn lemma_numeral_hex(n: nat)
    ensures
        hex_value(numeral(n, 16)) == n,
        forall|i: int| 0 <= i < numeral(n, 16).len() ==> hex_digit(#[trigger] numeral(n, 16)[i]),
    decreases n,
{
    let s = numeral(n, 16);
    if n < 16 {
        assert(s.drop_last() =~= Seq::empty());
        assert(hex_value(s.drop_last()) == 0);
    } else {
        lemma_numeral_hex(n / 16);
        assert(s.drop_last() =~= numeral(n / 16, 16));
    }
}

proof fn lemma_leading_zeros(k: nat, s: Seq<char>)
    ensures
        hex_value(Seq::new(k, |i: int| '0') + s) == hex_value(s),
    decreases k + s.len(),
{
    let zeros = Seq::new(k, |i: int| '0');
    let t = zeros + s;
    if s.len() > 0 {
        lemma_leading_zeros(k, s.drop_last());
        assert(t.drop_last() =~= zeros + s.drop_last());
    } else if k > 0 {
        lemma_leading_zeros((k - 1) as nat, s);
        assert(t.drop_last() =~= Seq::new((k - 1) as nat, |i: int| '0') + s);
        assert(t.last() == '0');
    } else {
        assert(t =~= s);
    }
}

proof fn lemma_padded_hex(n: nat, width: nat)
    ensures
        hex_value(padded_hex(n, width)) == n,
        forall|i: int|
            0 <= i < padded_hex(n, width).len() ==> hex_digit(#[trigger] padded_hex(n, width)[i]),
{
    lemma_numeral_hex(n);
    let digits = numeral(n, 16);
    if digits.len() < width {
        lemma_leading_zeros((width - digits.len()) as nat, digits);
    }
}

proof fn lemma_same_tail(a: Seq<char>, ha: Seq<char>, b: Seq<char>, hb: Seq<char>)
    requires
        a + ":"@ + ha == b + ":"@ + hb,
        forall|i: int| 0 <= i < ha.len() ==> hex_digit(#[trigger] ha[i]),
        forall|i: int| 0 <= i < hb.len() ==> hex_digit(#[trigger] hb[i]),
    ensures
        ha == hb,
        a == b,
{
    reveal_strlit(":");
    let (s, t) = (a + ":"@ + ha, b + ":"@ + hb);
    assert(s.len() == a.len() + 1 + ha.len());
    assert(t.len() == b.len() + 1 + hb.len());
    assert(s[a.len() as int] == ':');
    assert(t[b.len() as int] == ':');
    if a.len() < b.len() {
        assert(s[b.len() as int] == ha[b.len() - a.len() - 1]);
        assert(false);
    }
    if b.len() < a.len() {
        assert(t[a.len() as int] == hb[a.len() - b.len() - 1]);
        assert(false);
    }
    assert(a =~= s.take(a.len() as int));
    assert(b =~= t.take(a.len() as int));
    assert(ha =~= s.skip(a.len() as int + 1));
    assert(hb =~= t.skip(a.len() as int + 1));
}

/// References never collide: a reference tells the sandbox and the number that it was
/// made from.
pub proof fn candidate_names_are_distinct(a: Seq<char>, n: nat, b: Seq<char>, m: nat)
    requires
        candidate_name(a, n) == candidate_name(b, m),
    ensures
        a == b,
        n == m,
{
    let p = "sandbox-candidate:"@;
    lemma_padded_hex(n, 8);
    lemma_padded_hex(m, 8);
    lemma_same_tail(p + a, padded_hex(n, 8), p + b, padded_hex(m, 8));
    assert(a =~= (p + a).skip(p.len() as int));
    assert(b =~= (p + b).skip(p.len() as int));
}

proof fn lemma_local_ids(n: nat)
    ensures
        hex_value(local_id(n).skip("local-sandbox-"@.len() as int)) == n,
        forall|i: int| 0 <= i < local_id(n).len() ==> #[trigger] local_id(n)[i] != ':',
{
    let p = "local-sandbox-"@;
    lemma_padded_hex(n, 8);
    assert(local_id(n).skip(p.len() as int) =~= padded_hex(n, 8));
    reveal_strlit("local-sandbox-");
    assert forall|i: int| 0 <= i < local_id(n).len() implies #[trigger] local_id(n)[i] != ':' by {
        if i < p.len() {
            assert(local_id(n)[i] == p[i]);
        } else {
            assert(local_id(n)[i] == padded_hex(n, 8)[i - p.len()]);
        }
    }
}

/// Tearing one sandbox down spares the candidates of every other.
pub proof fn teardown_spares_other_sandboxes<A>(
    candidates: Map<Seq<char>, A>,
    n: nat,
    m: nat,
    k: nat,
)
    requires
        n != m,
        candidates.dom().contains(candidate_name(local_id(m), k)),
    ensures
        dropping(candidates, candidate_prefix(local_id(n))).dom().contains(
            candidate_name(local_id(m), k),
        ),
        dropping(candidates, candidate_prefix(local_id(n)))[candidate_name(local_id(m), k)]
            == candidates[candidate_name(local_id(m), k)],
{
    lemma_prefixes_differ(n, m, k);
}

proof fn lemma_prefixes_differ(n: nat, m: nat, k: nat)
    requires
        n != m,
    ensures
        !candidate_prefix(local_id(n)).is_prefix_of(candidate_name(local_id(m), k)),
{
    let (a, b) = (local_id(n), local_id(m));
    let p = "sandbox-candidate:"@;
    let (x, y) = (candidate_prefix(a), candidate_name(b, k));
    lemma_local_ids(n);
    lemma_local_ids(m);
    reveal_strlit(":");
    if x.is_prefix_of(y) {
        let at = p.len() as int;
        assert forall|i: int| 0 <= i < x.len() implies x[i] == y[i] by {
            assert(x[i] == y.subrange(0, x.len() as int)[i]);
        }
        if a.len() < b.len() {
            assert(x[at + a.len()] == ':');
            assert(y[at + a.len()] == b[a.len() as int]);
            assert(false);
        }
        if b.len() < a.len() {
            assert(y[at + b.len()] == ':');
            assert(x[at + b.len()] == a[b.len() as int]);
            assert(false);
        }
        assert forall|i: int| 0 <= i < a.len() implies a[i] == b[i] by {
            assert(x[at + i] == a[i]);
            assert(y[at + i] == b[i]);
        }
        assert(a =~= b);
    }
}

/// Tearing a sandbox down drops every candidate of that sandbox.
pub proof fn teardown_drops_its_candidates<A>(
    candidates: Map<Seq<char>, A>,
    id: Seq<char>,
    n: nat,
)
    ensures
        !dropping(candidates, candidate_prefix(id)).dom().contains(candidate_name(id, n)),
{
    let (x, y) = (candidate_prefix(id), candidate_name(id, n));
    assert(x =~= y.subrange(0, x.len() as int));
}

// --- The host ---------------------------------------------------------------

/// The rows of a store, keyed by text.
spec fn rows<A>(store: Seq<(String, A)>) -> Seq<(Seq<char>, A)> {
    store.map_values(|row: (String, A)| (row.0@, row.1))
}

impl<M: LocalMethod> View for LocalSandboxHost<M> {
    type V = LocalView<M, M::Artifact>;

    closed spec fn view(&self) -> LocalView<M, M::Artifact> {
        LocalView {
            method: self.method,
            candidates: table(rows(self.store@)),
            issued: self.counter as nat,
        }
    }
}

impl<M: LocalMethod> LocalSandboxHost<M> {
    /// Every candidate has a reference of its own that was given out before.
    pub closed spec fn wf(self) -> bool {
        &&& distinct_keys(rows(self.store@))
        &&& forall|i: int|
            0 <= i < self.store@.len() ==> issued_by(
                (#[trigger] self.store@[i]).0@,
                self.counter as nat,
            )
    }

    /// An in-process host around a method.
    pub fn new(method: M) -> (r: Self)
        ensures
            r.wf(),
            r@ == (LocalView::<M, M::Artifact> {
                method,
                candidates: Map::empty(),
                issued: 0,
            }),
    {
        let r = LocalSandboxHost { method, store: Vec::new(), counter: 0 };
        proof {
            assert(rows(r.store@) =~= Seq::empty());
            assert(table(rows(r.store@)) =~= Map::empty());
        }
        r
    }

    /// How many ids have been given out.
    pub fn issued(&self) -> (r: u64)
        ensures
            r == self@.issued,
            self.room() == u64::MAX - r,
    {
        self.counter
    }

    /// The candidate behind a reference; `None` if this host does not hold it.
    pub fn resolve(&self, candidate: &ArtifactRef) -> (r: Option<M::Artifact>)
        requires
            self.wf(),
        ensures
            match r {
                Some(a) => self@.candidates.dom().contains(candidate@) && cloned(
                    self@.candidates[candidate@],
                    a,
                ),
                None => !self@.candidates.dom().contains(candidate@),
            },
    {
        for i in 0..self.store.len()
            invariant
                self.wf(),
                forall|j: int| 0 <= j < i ==> (#[trigger] self.store@[j]).0@ != candidate@,
        {
            if same_text(self.store[i].0.as_str(), candidate.0.as_str()) {
                proof {
                    lemma_table_row(rows(self.store@), i as int);
                    assert(rows(self.store@)[i as int].0 == candidate@);
                }
                return Some(self.store[i].1.clone());
            }
        }
        proof {
            let s = rows(self.store@);
            assert forall|j: int| 0 <= j < s.len() implies (#[trigger] s[j]).0 != candidate@ by {
                assert(self.store@[j].0@ != candidate@);
            }
            lemma_table_absent(s, candidate@);
        }
        None
    }

    /// The report of an enclave that this host stands in for: it has the right shape,
    /// and its blobs are markers of local provenance.
    fn synthetic_attestation(tee_type: TeeType) -> (r: AttestationReport)
        ensures
            r@ == stand_in_report(tee_type),
    {
        let evidence = "local-sandbox-stand-in:".to_owned().concat(tee_type.label());
        AttestationReport {
            tee_type,
            evidence: copy_bytes(evidence.as_str().as_bytes()),
            measurement: copy_bytes("local-sandbox:no-enclave".as_bytes()),
            nonce: None,
        }
    }
}

proof fn lemma_issued_grows(key: Seq<char>, n: nat, m: nat)
    requires
        issued_by(key, n),
        n <= m,
    ensures
        issued_by(key, m),
{
    let (id, k) = choose|id: Seq<char>, k: nat| k <= n && key == #[trigger] candidate_name(id, k);
    assert(key == candidate_name(id, k));
}

proof fn lemma_fresh(key: Seq<char>, limit: nat, id: Seq<char>)
    requires
        issued_by(key, limit),
    ensures
        key != candidate_name(id, limit + 1),
{
    let (b, k) = choose|b: Seq<char>, k: nat| k <= limit && key == #[trigger] candidate_name(b, k);
    if key == candidate_name(id, limit + 1) {
        candidate_names_are_distinct(id, limit + 1, b, k);
    }
}

impl<M: LocalMethod> SandboxHost for LocalSandboxHost<M> {
    open spec fn sound(&self) -> bool {
        self.wf()
    }

    open spec fn room(&self) -> nat {
        (u64::MAX - self@.issued) as nat
    }

    /// A request that is not fail-closed changes nothing; any other gets the next id.
    open spec fn provisions(
        before: Self,
        req: ProvisionView,
        after: Self,
        out: Result<SandboxHandle, SandboxError>,
    ) -> bool {
        if req.fail_closed() {
            &&& after@ == (LocalView { issued: before@.issued + 1, ..before@ })
            &&& out matches Ok(handle)
            &&& handle@ == local_handle(before@.issued + 1, req.backend)
        } else {
            &&& after == before
            &&& out == Err::<SandboxHandle, SandboxError>(SandboxError::EgressNotFailClosed)
        }
    }

    /// The method is run; what it produces is kept under a reference of its own, and
    /// if it fails nothing changes.
    open spec fn runs(
        before: Self,
        handle: HandleView,
        method: ArtifactRef,
        ctx: EngineContext,
        after: Self,
        out: Result<ArtifactRef, SandboxError>,
    ) -> bool {
        exists|produced: Result<M::Artifact, SandboxError>|
            #![trigger call_ensures(M::run, (&before@.method, &method, &ctx), produced)]
            {
                &&& call_ensures(M::run, (&before@.method, &method, &ctx), produced)
                &&& match produced {
                    Ok(artifact) => {
                        let name = candidate_name(handle.id, before@.issued + 1);
                        &&& !before@.candidates.dom().contains(name)
                        &&& after@ == (LocalView {
                            candidates: before@.candidates.insert(name, artifact),
                            issued: before@.issued + 1,
                            ..before@
                        })
                        &&& out matches Ok(candidate)
                        &&& candidate@ == name
                    },
                    Err(e) => after == before && out == Err::<ArtifactRef, SandboxError>(e),
                }
            }
    }

    /// The candidates of the sandbox are dropped; nothing else changes.
    open spec fn tears_down(
        before: Self,
        handle: HandleView,
        after: Self,
        out: Result<(), SandboxError>,
    ) -> bool {
        &&& after@ == (LocalView {
            candidates: dropping(before@.candidates, candidate_prefix(handle.id)),
            ..before@
        })
        &&& out == Ok::<(), SandboxError>(())
    }

    fn provision(&mut self, req: &SandboxProvisionReq) -> (r: Result<SandboxHandle, SandboxError>) {
        match req.validate() {
            Ok(()) => {},
            Err(e) => {
                return Err(e);
            },
        }
        self.counter = self.counter + 1;
        proof {
            assert forall|i: int| 0 <= i < self.store@.len() implies issued_by(
                (#[trigger] self.store@[i]).0@,
                self.counter as nat,
            ) by {
                lemma_issued_grows(
                    self.store@[i].0@,
                    (self.counter - 1) as nat,
                    self.counter as nat,
                );
            }
        }
        let id = "local-sandbox-".to_owned().concat(to_padded_hex(self.counter, 8).as_str());
        let tee_attestation = match req.backend {
            SandboxBackend::Tee(t) => Some(Self::synthetic_attestation(t)),
            SandboxBackend::Docker | SandboxBackend::Local => None,
        };
        Ok(
            SandboxHandle {
                sidecar_url: "inproc://".to_owned().concat(id.as_str()),
                id,
                backend: req.backend,
                tee_attestation,
            },
        )
    }

    fn run_method(&mut self, handle: &SandboxHandle, method: &ArtifactRef, ctx: &EngineContext) -> (r:
        Result<ArtifactRef, SandboxError>) {
        let ghost before = *self;
        let produced = self.method.run(method, ctx);
        proof {
            assert(call_ensures(M::run, (&before@.method, method, ctx), produced));
        }
        match produced {
            Ok(artifact) => {
                self.counter = self.counter + 1;
                let mut name = "sandbox-candidate:".to_owned();
                name.append(handle.id.as_str());
                name.append(":");
                name.append(to_padded_hex(self.counter, 8).as_str());
                proof {
                    let old_rows = rows(before.store@);
                    let n = before.counter as nat;
                    assert forall|i: int| 0 <= i < old_rows.len() implies (#[trigger] old_rows[i]).0
                        != name@ by {
                        assert(issued_by(before.store@[i].0@, n));
                        lemma_fresh(before.store@[i].0@, n, handle.id@);
                    }
                    lemma_table_absent(old_rows, name@);
                    lemma_table_push(old_rows, name@, artifact);
                }
                let key = name.clone();
                self.store.push((key, artifact));
                proof {
                    assert(rows(self.store@) =~= rows(before.store@).push((name@, artifact)));
                    assert forall|i: int| 0 <= i < self.store@.len() implies issued_by(
                        (#[trigger] self.store@[i]).0@,
                        self.counter as nat,
                    ) by {
                        if i < before.store@.len() {
                            assert(self.store@[i] == before.store@[i]);
                            lemma_issued_grows(
                                before.store@[i].0@,
                                before.counter as nat,
                                self.counter as nat,
                            );
                        } else {
                            assert(self.store@[i].0@ == candidate_name(
                                handle.id@,
                                self.counter as nat,
                            ));
                        }
                    }
                }
                Ok(ArtifactRef(name))
            },
            Err(e) => Err(e),
        }
    }

    fn teardown(&mut self, handle: SandboxHandle) -> (r: Result<(), SandboxError>) {
        let ghost before = *self;
        let mut prefix = "sandbox-candidate:".to_owned();
        prefix.append(handle.id.as_str());
        prefix.append(":");
        let mut held: Vec<(String, M::Artifact)> = Vec::new();
        std::mem::swap(&mut self.store, &mut held);
        let ghost all = held@;
        let mut kept: Vec<(String, M::Artifact)> = Vec::new();
        proof {
            assert(rows(all.take(0)) =~= Seq::empty());
            assert(rows(kept@) =~= Seq::empty());
            assert(table(rows(kept@)) =~= dropping(table(rows(all.take(0))), prefix@));
        }
        for row in it: held
            invariant
                it.seq() == all,
                distinct_keys(rows(all)),
                distinct_keys(rows(kept@)),
                table(rows(kept@)) == dropping(table(rows(all.take(it.index() as int))), prefix@),
                forall|i: int|
                    0 <= i < all.len() ==> issued_by(
                        (#[trigger] all[i]).0@,
                        before.counter as nat,
                    ),
                forall|i: int|
                    0 <= i < kept@.len() ==> issued_by(
                        (#[trigger] kept@[i]).0@,
                        before.counter as nat,
                    ),
        {
            let ghost i = it.index() as int;
            let ghost was = kept@;
            let ghost seen = rows(all.take(i));
            proof {
                assert(row == all[i]);
                assert(rows(all.take(i + 1)) =~= seen.push((row.0@, row.1)));
                assert(distinct_keys(seen)) by {
                    assert forall|p: int, q: int|
                        0 <= p < seen.len() && 0 <= q < seen.len() && p != q implies #[trigger] seen[p].0
                        != #[trigger] seen[q].0 by {
                        assert(rows(all)[p].0 != rows(all)[q].0);
                    }
                }
                assert forall|p: int| 0 <= p < seen.len() implies (#[trigger] seen[p]).0 != row.0@ by {
                    assert(rows(all)[p].0 != rows(all)[i].0);
                }
                lemma_table_absent(seen, row.0@);
                lemma_table_push(seen, row.0@, row.1);
            }
            if !begins_with(row.0.as_str(), prefix.as_str()) {
                proof {
                    assert(!table(rows(was)).dom().contains(row.0@));
                    lemma_table_push(rows(was), row.0@, row.1);
                    assert(rows(was.push(row)) =~= rows(was).push((row.0@, row.1)));
                }
                kept.push(row);
            }
            proof {
                assert(table(rows(kept@)) =~= dropping(table(rows(all.take(i + 1))), prefix@));
            }
        }
        proof {
            assert(all.take(all.len() as int) =~= all);
        }
        self.store = kept;
        Ok(())
    }
}

/// What is dropped of the candidates is what begins with the prefix; all else stays as it
/// was.
pub proof fn only_what_has_the_prefix_is_dropped<A>(
    m: Map<Seq<char>, A>,
    prefix: Seq<char>,
    key: Seq<char>,
)
    ensures
        dropping(m, prefix).dom().contains(key) <==> m.dom().contains(key) && !(prefix.len()
            <= key.len() && key.take(prefix.len() as int) == prefix),
        dropping(m, prefix).dom().contains(key) ==> dropping(m, prefix)[key] == m[key],
{
    if prefix.len() <= key.len() {
        assert(key.take(prefix.len() as int) =~= key.subrange(0, prefix.len() as int));
    }
}

/// A sandbox carries a report exactly where it stands in for an enclave, and the report
/// is of that technology; nothing in it is of a real one.
pub proof fn only_an_enclave_carries_a_report(n: nat, backend: SandboxBackend)
    ensures
        ({
            let handle = local_handle(n, backend);
            &&& handle.backend == backend
            &&& handle.id == "local-sandbox-"@ + padded_hex(n, 8)
            &&& handle.sidecar_url == "inproc://"@ + handle.id
            &&& handle.tee_attestation is Some <==> backend is Tee
            &&& backend matches SandboxBackend::Tee(t) ==> {
                let report = handle.tee_attestation->0;
                &&& report.tee_type == t
                &&& report.evidence == encode_utf8("local-sandbox-stand-in:"@ + t.name())
                &&& report.measurement == encode_utf8("local-sandbox:no-enclave"@)
                &&& report.nonce is None
            }
        }),
{
}

/// The in-process host provisions exactly where the request is for no enclave or has a
/// policy that denies by default, and then gives out the next id; no candidate is touched.
pub proof fn a_local_host_provisions_what_is_fail_closed<M: LocalMethod>(
    before: LocalSandboxHost<M>,
    after: LocalSandboxHost<M>,
    req: ProvisionView,
    provisioned: Result<SandboxHandle, SandboxError>,
)
    requires
        LocalSandboxHost::<M>::provisions(before, req, after, provisioned),
    ensures
        provisioned is Ok <==> !(req.backend is Tee) || (req.egress matches Some(p)
            && p.default_deny),
        provisioned matches Ok(handle) ==> {
            &&& handle.id@ == "local-sandbox-"@ + padded_hex(before@.issued + 1, 8)
            &&& handle.backend == req.backend
            &&& handle.tee_attestation is Some <==> req.backend is Tee
            &&& after@.issued == before@.issued + 1
        },
        provisioned matches Err(e) ==> e is EgressNotFailClosed && after == before,
        after@.candidates == before@.candidates,
{
}

/// A run of the in-process host keeps what the method produces under a reference that was
/// not in use, and a failed one changes nothing; a teardown drops the candidates of the
/// one sandbox.
pub proof fn a_run_adds_and_a_teardown_takes_away<M: LocalMethod>(
    before: LocalSandboxHost<M>,
    used: LocalSandboxHost<M>,
    after: LocalSandboxHost<M>,
    handle: HandleView,
    method: ArtifactRef,
    ctx: EngineContext,
    run: Result<ArtifactRef, SandboxError>,
    teardown: Result<(), SandboxError>,
    key: Seq<char>,
)
    requires
        LocalSandboxHost::<M>::runs(before, handle, method, ctx, used, run),
        LocalSandboxHost::<M>::tears_down(used, handle, after, teardown),
    ensures
        run matches Ok(candidate) ==> {
            &&& candidate@ == "sandbox-candidate:"@ + handle.id + ":"@ + padded_hex(
                before@.issued + 1,
                8,
            )
            &&& !before@.candidates.dom().contains(candidate@)
            &&& used@.candidates.dom().contains(candidate@)
            &&& key != candidate@ ==> (used@.candidates.dom().contains(key)
                <==> before@.candidates.dom().contains(key))
        },
        run is Err ==> used == before,
        teardown is Ok,
        after@.issued == used@.issued,
        ({
            let mine = "sandbox-candidate:"@ + handle.id + ":"@;
            after@.candidates.dom().contains(key) <==> used@.candidates.dom().contains(key) && !(
            mine.len() <= key.len() && key.take(mine.len() as int) == mine)
        }),
        after@.candidates.dom().contains(key) ==> after@.candidates[key] == used@.candidates[key],
{
    only_what_has_the_prefix_is_dropped(used@.candidates, candidate_prefix(handle.id), key);
}

} // verus!
