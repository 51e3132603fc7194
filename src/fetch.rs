//! The fetch engine: which candidate to download, whether its content matches,
//! and the transitions of a fetch from listing to restarting units.

use vstd::prelude::*;
use crate::backend::{sha256, sha256_of};
use crate::error::Error;
use crate::manifest::{manifest_of, parse_manifest, signature_valid, Manifest, ManifestView};
use crate::version::{
    lemma_compare_antisymmetric, lemma_compare_transitive, version_cmp, Version,
};

verus! {

/// A candidate text that parses as a manifest signed by the pinned key.
pub open spec fn acceptable(t: Seq<char>, public_key: Seq<u8>) -> bool {
    manifest_of(t) is Some && signature_valid(manifest_of(t).unwrap(), public_key)
}

/// The version that a candidate text names.
pub open spec fn candidate_version(t: Seq<char>) -> Seq<char> {
    manifest_of(t).unwrap().version
}

/// A version is newer than what is installed, or nothing is installed.
pub open spec fn exceeds(v: Seq<char>, installed: Option<Seq<char>>) -> bool {
    match installed {
        None => true,
        Some(i) => version_cmp(v, i) > 0,
    }
}

pub open spec fn installed_view(installed: Option<&Version>) -> Option<Seq<char>> {
    match installed {
        None => None,
        Some(v) => Some(v@),
    }
}

/// Some acceptable candidate is newer than what is installed.
pub open spec fn has_candidate(texts: Seq<String>, installed: Option<Seq<char>>, public_key: Seq<u8>) -> bool {
    exists|j: int|
        0 <= j < texts.len() && acceptable(#[trigger] texts[j]@, public_key) && exceeds(
            candidate_version(texts[j]@),
            installed,
        )
}

/// The candidate at index `k` holds the manifest, and every acceptable
/// candidate before it has a smaller version.
pub open spec fn first_with(texts: Seq<String>, public_key: Seq<u8>, m: ManifestView, k: int) -> bool {
    &&& 0 <= k < texts.len()
    &&& acceptable(texts[k]@, public_key)
    &&& manifest_of(texts[k]@) == Some(m)
    &&& forall|j: int|
        0 <= j < k && acceptable(#[trigger] texts[j]@, public_key) ==> version_cmp(candidate_version(texts[j]@), m.version)
            < 0
}

/// The manifest is an acceptable candidate, newer than what is installed, no
/// acceptable candidate has a greater version, and none before it an equal one.
pub open spec fn is_best(texts: Seq<String>, installed: Option<Seq<char>>, public_key: Seq<u8>, m: ManifestView) -> bool {
    &&& exists|k: int| first_with(texts, public_key, m, k)
    &&& exceeds(m.version, installed)
    &&& forall|j: int|
        0 <= j < texts.len() && acceptable(#[trigger] texts[j]@, public_key) ==> version_cmp(
            candidate_version(texts[j]@),
            m.version,
        ) <= 0
}

/// Selects, among the candidate manifest texts that parse and verify under the
/// public key, the one with the greatest version, provided that it is newer
/// than the installed version. Candidates that fail to parse or verify are
/// skipped. Among equal versions the first wins.
pub fn select_candidate(installed: Option<&Version>, texts: &Vec<String>, public_key: &[u8; 32]) -> (r: Option<Manifest>)
    ensures
        r is None <==> !has_candidate(texts@, installed_view(installed), public_key@),
        r matches Some(m) ==> is_best(texts@, installed_view(installed), public_key@, m@),
{
    let ghost inst = installed_view(installed);
    let ghost ts = texts@;
    let ghost pk = public_key@;
    let mut best: Option<Manifest> = None;
    let mut i: usize = 0;
    while i < texts.len()
        invariant
            ts == texts@,
            pk == public_key@,
            inst == installed_view(installed),
            i <= ts.len(),
            best is None ==> forall|j: int|
                0 <= j < i && acceptable(#[trigger] ts[j]@, pk) ==> !exceeds(candidate_version(ts[j]@), inst),
            best matches Some(m) ==> {
                &&& exists|k: int| k < i && #[trigger] first_with(ts, pk, m@, k)
                &&& exceeds(m@.version, inst)
                &&& forall|j: int|
                    0 <= j < i && acceptable(#[trigger] ts[j]@, pk) ==> version_cmp(candidate_version(ts[j]@), m@.version)
                        <= 0
            },
        decreases ts.len() - i,
    {
        let ghost t = ts[i as int]@;
        match parse_manifest(texts[i].as_str()) {
            Err(_) => {},
            Ok(m) => {
                if m.verify(public_key).is_ok() {
                    let newer = match installed {
                        None => true,
                        Some(v) => is_greater(m.version().compare(v)),
                    };
                    if newer {
                        let better = match &best {
                            None => true,
                            Some(b) => is_greater(m.version().compare(b.version())),
                        };
                        if better {
                            proof {
                                assert forall|j: int|
                                    0 <= j < i && acceptable(#[trigger] ts[j]@, pk) implies version_cmp(
                                    candidate_version(ts[j]@),
                                    m@.version,
                                ) < 0 by {
                                    let vj = candidate_version(ts[j]@);
                                    if best is Some {
                                        let b = best.unwrap();
                                        lemma_compare_antisymmetric(m@.version, b@.version);
                                        lemma_below_then_below(vj, b@.version, m@.version);
                                    } else {
                                        let iv = inst.unwrap();
                                        lemma_compare_antisymmetric(vj, iv);
                                        lemma_compare_antisymmetric(m@.version, iv);
                                        lemma_below_then_below(vj, iv, m@.version);
                                    }
                                }
                                assert(acceptable(ts[i as int]@, pk));
                                assert(manifest_of(ts[i as int]@) == Some(m@));
                                assert(first_with(ts, pk, m@, i as int));
                                assert(version_cmp(candidate_version(ts[i as int]@), m@.version) <= 0) by {
                                    crate::version::lemma_compare_reflexive(m@.version);
                                }
                            }
                            best = Some(m);
                        } else {
                            proof {
                                let b = best.unwrap();
                                lemma_compare_antisymmetric(m@.version, b@.version);
                            }
                        }
                    } else {
                        proof {
                            if best is Some {
                                let b = best.unwrap();
                                let iv = inst.unwrap();
                                lemma_compare_antisymmetric(m@.version, iv);
                                lemma_compare_antisymmetric(b@.version, iv);
                                lemma_compare_transitive(m@.version, iv, b@.version);
                            }
                        }
                    }
                }
            },
        }
        i += 1;
    }
    proof {
        if best is None {
            assert(!has_candidate(ts, inst, pk));
        }
    }
    best
}

/// With `1.0` installed and acceptable candidates only at `1.0`, `1.2` and
/// `0.9`, the selected manifest is the one at `1.2`.
pub proof fn lemma_selects_newest_example(texts: Seq<String>, public_key: Seq<u8>, m: ManifestView)
    requires
        is_best(texts, Some("1.0"@), public_key, m),
        forall|j: int|
            0 <= j < texts.len() && acceptable(#[trigger] texts[j]@, public_key) ==> candidate_version(texts[j]@)
                == "1.0"@ || candidate_version(texts[j]@) == "1.2"@ || candidate_version(texts[j]@) == "0.9"@,
    ensures
        m.version == "1.2"@,
{
    let k = choose|k: int| first_with(texts, public_key, m, k);
    assert(candidate_version(texts[k]@) == m.version);
    crate::version::lemma_version_examples();
    crate::version::lemma_compare_reflexive("1.0"@);
}

/// With `1.0` installed and acceptable candidates only at `1.0`, there is
/// nothing to fetch.
pub proof fn lemma_no_candidate_example(texts: Seq<String>, public_key: Seq<u8>)
    requires
        forall|j: int|
            0 <= j < texts.len() && acceptable(#[trigger] texts[j]@, public_key) ==> candidate_version(texts[j]@)
                == "1.0"@,
    ensures
        !has_candidate(texts, Some("1.0"@), public_key),
{
    crate::version::lemma_compare_reflexive("1.0"@);
}

/// `a <= b < c` gives `a < c`.
proof fn lemma_below_then_below(a: Seq<char>, b: Seq<char>, c: Seq<char>)
    requires
        version_cmp(a, b) <= 0,
        version_cmp(b, c) < 0,
    ensures
        version_cmp(a, c) < 0,
{
    lemma_compare_transitive(a, b, c);
    if version_cmp(a, c) == 0 {
        lemma_compare_antisymmetric(a, c);
        lemma_compare_antisymmetric(b, c);
        lemma_compare_transitive(c, a, b);
    }
}

fn is_greater(o: core::cmp::Ordering) -> (r: bool)
    ensures
        r == (o is Greater),
{
    match o {
        core::cmp::Ordering::Greater => true,
        _ => false,
    }
}

/// The SHA-256 digest of some content.
pub fn digest_of(data: &[u8]) -> (r: [u8; 32])
    ensures
        r@ == sha256_of(data@),
{
    sha256(data)
}

/// Compares the digest computed over downloaded content with the one that the
/// manifest binds.
pub fn check_digest(m: &Manifest, computed: &[u8; 32]) -> (r: Result<(), Error>)
    ensures
        r is Ok <==> computed@ == m@.digest,
        r matches Err(e) ==> e == Error::DigestMismatch,
{
    let d = m.digest();
    let mut i: usize = 0;
    while i < 32
        invariant
            d@ == m@.digest,
            i <= 32,
            forall|k: int| 0 <= k < i ==> computed@[k] == d@[k],
        decreases 32 - i,
    {
        if computed[i] != d[i] {
            return Err(Error::DigestMismatch);
        }
        i += 1;
    }
    proof {
        assert(computed@ =~= d@);
    }
    Ok(())
}

/// Checks downloaded content against the manifest's digest.
pub fn verify_blob(m: &Manifest, blob: &[u8]) -> (r: Result<(), Error>)
    ensures
        r is Ok <==> sha256_of(blob@) == m@.digest,
        r matches Err(e) ==> e == Error::DigestMismatch,
{
    let computed = digest_of(blob);
    check_digest(m, &computed)
}

/// Where a fetch stands.
pub enum FetchState {
    Idle,
    /// Waiting for the list of manifests, with the installed version.
    Listing(Option<Version>),
    /// Waiting for the blob of the selected manifest.
    Downloading(Manifest),
    /// Waiting for the verified blob to be installed.
    Installing(Manifest),
    /// Waiting for the restart of the unit with this index.
    Restarting(Manifest, usize),
    Done,
    /// Nothing qualifies for install: a normal outcome, not a failure.
    NoCandidate,
    Failed(Error),
}

/// What the outside world reports to the engine.
pub enum FetchEvent {
    /// Begin, with the installed version and whether only an initial install
    /// is wanted.
    Start(Option<Version>, bool),
    /// The texts of the manifests that the origin offers.
    Listed(Vec<String>),
    /// The content of the requested blob.
    Downloaded(Vec<u8>),
    /// The blob is in place at the destination.
    Installed,
    /// The requested restart was attempted; a failure is reported there and
    /// does not undo the install.
    Restarted,
    /// The requested work failed.
    Failure(Error),
}

/// What the engine asks of the outside world.
pub enum FetchAction {
    ListManifests,
    /// Download the blob with this digest.
    Download([u8; 32]),
    /// Write the downloaded blob to a temporary file next to the destination,
    /// then rename it into place.
    Install(Manifest),
    /// Restart the configured unit with this index.
    Restart(usize),
    Finish,
}

pub open spec fn option_view(o: Option<Version>) -> Option<Seq<char>> {
    match o {
        None => None,
        Some(v) => Some(v@),
    }
}

pub open spec fn is_terminal(s: FetchState) -> bool {
    s is Done || s is NoCandidate || s is Failed
}

/// One transition of a fetch: from a state and an event to the next state and
/// the action to perform. Content whose digest does not match is never
/// installed.
pub fn step(state: FetchState, event: FetchEvent, public_key: &[u8; 32], n_units: usize) -> (r: (FetchState, FetchAction))
    ensures
        state is Idle ==> (event matches FetchEvent::Start(inst, init) ==> if init && inst is Some {
            r.0 is NoCandidate && r.1 is Finish
        } else {
            r.0 matches FetchState::Listing(i) && option_view(i) == option_view(inst) && r.1 is ListManifests
        }),
        state matches FetchState::Listing(inst) ==> (event matches FetchEvent::Listed(texts) ==> if has_candidate(
            texts@,
            option_view(inst),
            public_key@,
        ) {
            &&& r.0 matches FetchState::Downloading(m) && is_best(texts@, option_view(inst), public_key@, m@)
            &&& r.1 matches FetchAction::Download(d) && d@ == r.0->Downloading_0@.digest
        } else {
            r.0 is NoCandidate && r.1 is Finish
        }),
        state matches FetchState::Downloading(m) ==> (event matches FetchEvent::Downloaded(blob) ==> if sha256_of(
            blob@,
        ) == m@.digest {
            &&& r.0 matches FetchState::Installing(m2) && m2@ == m@
            &&& r.1 matches FetchAction::Install(m3) && m3@ == m@
        } else {
            r.0 == FetchState::Failed(Error::DigestMismatch) && r.1 is Finish
        }),
        state matches FetchState::Installing(m) ==> (event is Installed ==> if n_units == 0 {
            r.0 is Done && r.1 is Finish
        } else {
            &&& r.0 matches FetchState::Restarting(m2, k) && k == 0 && m2@ == m@
            &&& r.1 == FetchAction::Restart(0)
        }),
        state matches FetchState::Restarting(m, k) ==> (event is Restarted ==> if k + 1 < n_units {
            &&& r.0 matches FetchState::Restarting(m2, k2) && k2 == k + 1 && m2@ == m@
            &&& r.1 == FetchAction::Restart((k + 1) as usize)
        } else {
            r.0 is Done && r.1 is Finish
        }),
        !is_terminal(state) ==> (event matches FetchEvent::Failure(e) ==> r.0 == FetchState::Failed(e) && r.1 is Finish),
        is_terminal(state) ==> r.0 == state && r.1 is Finish,
        (!is_terminal(state) && !(event is Failure) && !fits(state, event)) ==> r.0 == FetchState::Failed(
            Error::OperationError(MSG_UNFIT_EVENT),
        ) && r.1 is Finish,
        r.1 is Install ==> state is Downloading,
{
    match state {
        FetchState::Done | FetchState::NoCandidate | FetchState::Failed(_) => (state, FetchAction::Finish),
        _ => match event {
            FetchEvent::Failure(e) => (FetchState::Failed(e), FetchAction::Finish),
            FetchEvent::Start(inst, init) => match state {
                FetchState::Idle => {
                    if init && inst.is_some() {
                        (FetchState::NoCandidate, FetchAction::Finish)
                    } else {
                        (FetchState::Listing(inst), FetchAction::ListManifests)
                    }
                },
                _ => unexpected_event(),
            },
            FetchEvent::Listed(texts) => match state {
                FetchState::Listing(inst) => {
                    let installed = match &inst {
                        None => None,
                        Some(v) => Some(v),
                    };
                    match select_candidate(installed, &texts, public_key) {
                        None => (FetchState::NoCandidate, FetchAction::Finish),
                        Some(m) => {
                            let d = m.digest();
                            (FetchState::Downloading(m), FetchAction::Download(d))
                        },
                    }
                },
                _ => unexpected_event(),
            },
            FetchEvent::Downloaded(blob) => match state {
                FetchState::Downloading(m) => {
                    match verify_blob(&m, blob.as_slice()) {
                        Ok(()) => {
                            let m2 = m.clone();
                            (FetchState::Installing(m), FetchAction::Install(m2))
                        },
                        Err(e) => (FetchState::Failed(e), FetchAction::Finish),
                    }
                },
                _ => unexpected_event(),
            },
            FetchEvent::Installed => match state {
                FetchState::Installing(m) => {
                    if n_units == 0 {
                        (FetchState::Done, FetchAction::Finish)
                    } else {
                        (FetchState::Restarting(m, 0), FetchAction::Restart(0))
                    }
                },
                _ => unexpected_event(),
            },
            FetchEvent::Restarted => match state {
                FetchState::Restarting(m, k) => {
                    if k < n_units && k + 1 < n_units {
                        (FetchState::Restarting(m, k + 1), FetchAction::Restart(k + 1))
                    } else {
                        (FetchState::Done, FetchAction::Finish)
                    }
                },
                _ => unexpected_event(),
            },
        },
    }
}

pub const MSG_UNFIT_EVENT: &'static str = "The event does not fit the state of the fetch.";

/// The event is the one that the state waits for.
pub open spec fn fits(state: FetchState, event: FetchEvent) -> bool {
    ||| (state is Idle && event is Start)
    ||| (state is Listing && event is Listed)
    ||| (state is Downloading && event is Downloaded)
    ||| (state is Installing && event is Installed)
    ||| (state is Restarting && event is Restarted)
}

fn unexpected_event() -> (r: (FetchState, FetchAction))
    ensures
        r.0 == FetchState::Failed(Error::OperationError(MSG_UNFIT_EVENT)) && r.1 is Finish,
{
    (FetchState::Failed(Error::OperationError(MSG_UNFIT_EVENT)), FetchAction::Finish)
}

} // verus!
