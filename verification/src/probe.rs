//! Execution-provider probing: canonical provider names, and the report that
//! a dry run or a simulated host (a fixture) gives for a requested provider.
use std::path::PathBuf;
use vstd::prelude::*;

use crate::devices::texts;
use crate::text::{debug_quoted, debug_text, plain_text};

verus! {

/// A probe that could not be carried out, with the reason as text.
#[derive(Debug)]
pub struct ProbeError {
    pub message: String,
}

/// The provider a caller asks for and, optionally, a fixture file that
/// simulates which providers a host offers.
#[derive(Debug)]
pub struct ProbeRequest {
    /// Provider name requested by user/application config.
    pub requested_provider: String,
    /// Optional fixture with host/provider availability simulation.
    pub fixture: Option<PathBuf>,
}

/// A simulated host: the providers it offers and the order in which a
/// session falls back to them.
#[derive(Clone, Debug, PartialEq, Eq)]
pub struct FixtureProbeState {
    pub available_providers: Vec<String>,
    pub fallback_chain: Vec<String>,
}

impl Default for FixtureProbeState {
    fn default() -> (s: Self)
        ensures
            s.available_providers@.len() == 0,
            s.fallback_chain@.len() == 0,
    {
        FixtureProbeState { available_providers: Vec::new(), fallback_chain: Vec::new() }
    }
}

/// The level at which a provider assignment was observed.
#[derive(Clone, Copy, Debug, PartialEq, Eq, Structural)]
pub enum AssignmentScope {
    /// Request-level only; no session-level evidence yet.
    RequestedOnly,
    /// Assignment was observed through session builder/fallback model.
    Session,
    /// Op-level evidence (not available in this prototype).
    Op,
    /// Node-level evidence (not available in this prototype).
    Node,
}

/// Where the evidence for an assignment comes from.
#[derive(Clone, Copy, Debug, PartialEq, Eq, Structural)]
pub enum ObservedWith {
    /// No provider probe executed.
    DryRun,
    /// Provider info sourced from fixture simulation.
    Fixture,
}

/// The outcome of a probe.
#[derive(Clone, Copy, Debug, PartialEq, Eq, Structural)]
pub enum ProviderProbeStatus {
    /// Probe was not executed; JSON schema can still be produced.
    NotProbedDryRun,
    /// Requested provider is in available provider list.
    RequestedProviderAvailable,
    /// Requested provider unavailable; fallback to another provider observed.
    RequestedProviderUnavailableWithFallback,
    /// Requested provider unavailable; no fallback available in tested chain.
    RequestedProviderUnavailableNoFallback,
    /// Fixture parse error.
    FixtureInvalid,
}

/// How finely an assignment was established.
#[derive(Clone, Copy, Debug, PartialEq, Eq, Structural)]
pub enum ProviderAssignmentGranularity {
    /// We only validated intent, no real ORT session evidence.
    DryRun,
    /// Assignment is inferred at session-configuration granularity.
    Session,
    /// Assignment not probed.
    NotProbed,
}

/// Which provider serves a request at some scope, and why we believe it.
#[derive(Clone, Debug, PartialEq, Eq)]
pub struct ProviderAssignment {
    /// Scope at which this assignment is observed.
    pub scope: AssignmentScope,
    /// Requested provider key from config/runtime input.
    pub requested_provider: String,
    /// Provider that can be used by execution at this scope.
    pub observed_provider: Option<String>,
    /// How confidence/observability was established.
    pub observed_with: ObservedWith,
    /// Evidence string suitable for diagnostics.
    pub evidence: String,
}

/// The result of probing a requested provider.
#[derive(Debug, PartialEq, Eq)]
pub struct ProbeReport {
    pub requested_provider: String,
    pub provider_probe_status: ProviderProbeStatus,
    pub observed_provider_assignment: Vec<ProviderAssignment>,
    pub provider_assignment_granularity: ProviderAssignmentGranularity,
    pub errors: Vec<String>,
}

/// An assignment with its texts as character sequences.
#[verifier::ext_equal]
pub struct AssignmentView {
    pub scope: AssignmentScope,
    pub requested_provider: Seq<char>,
    pub observed_provider: Option<Seq<char>>,
    pub observed_with: ObservedWith,
    pub evidence: Seq<char>,
}

/// A report with its texts as character sequences.
#[verifier::ext_equal]
pub struct ReportView {
    pub requested_provider: Seq<char>,
    pub status: ProviderProbeStatus,
    pub assignments: Seq<AssignmentView>,
    pub granularity: ProviderAssignmentGranularity,
    pub errors: Seq<Seq<char>>,
}

pub open spec fn opt_text(o: Option<String>) -> Option<Seq<char>> {
    match o {
        Some(s) => Some(s@),
        None => None,
    }
}

impl View for ProviderAssignment {
    type V = AssignmentView;

    open spec fn view(&self) -> AssignmentView {
        AssignmentView {
            scope: self.scope,
            requested_provider: self.requested_provider@,
            observed_provider: opt_text(self.observed_provider),
            observed_with: self.observed_with,
            evidence: self.evidence@,
        }
    }
}

impl View for ProbeReport {
    type V = ReportView;

    open spec fn view(&self) -> ReportView {
        ReportView {
            requested_provider: self.requested_provider@,
            status: self.provider_probe_status,
            assignments: self.observed_provider_assignment@.map_values(
                |a: ProviderAssignment| a@,
            ),
            granularity: self.provider_assignment_granularity,
            errors: texts(self.errors@),
        }
    }
}

/// A digit or an ASCII letter, by code point.
pub open spec fn is_ascii_alnum_code(x: u32) -> bool {
    (48 <= x <= 57) || (65 <= x <= 90) || (97 <= x <= 122)
}

/// The ASCII lowercase of a code point; other code points are unchanged.
pub open spec fn ascii_lower_code(x: u32) -> u32 {
    if 65 <= x <= 90 {
        (x + 32) as u32
    } else {
        x
    }
}

/// The code points of a text.
pub open spec fn codes(s: Seq<char>) -> Seq<u32> {
    s.map_values(|c: char| c as u32)
}

/// The lowercased ASCII letters and digits of a text, in order: the key
/// under which provider aliases are recognised.
pub open spec fn compact_key(s: Seq<char>) -> Seq<u32>
    decreases s.len(),
{
    if s.len() == 0 {
        Seq::empty()
    } else {
        let c = s.last() as u32;
        compact_key(s.drop_last()) + if is_ascii_alnum_code(c) {
            seq![ascii_lower_code(c)]
        } else {
            Seq::<u32>::empty()
        }
    }
}

/// The canonical provider for a recognised alias key.
pub open spec fn known_provider(k: Seq<u32>) -> Option<Seq<char>> {
    if k == codes("cpu"@) || k == codes("cpuep"@) || k == codes("cpuexecutionprovider"@) {
        Some("CPUExecutionProvider"@)
    } else if k == codes("cuda"@) || k == codes("cudaprovider"@) || k == codes(
        "cudagpuexecutionprovider"@,
    ) || k == codes("cudagpuep"@) {
        Some("CUDAExecutionProvider"@)
    } else if k == codes("coreml"@) || k == codes("coremlep"@) || k == codes(
        "coremlexecutionprovider"@,
    ) || k == codes("core"@) {
        Some("CoreMLExecutionProvider"@)
    } else if k == codes("openvino"@) || k == codes("openvinoexecutionprovider"@) {
        Some("OpenVINOExecutionProvider"@)
    } else if k == codes("tensorrt"@) || k == codes("tensorrtexecutionprovider"@) {
        Some("TensorRTExecutionProvider"@)
    } else if k == codes("dml"@) || k == codes("directml"@) || k == codes(
        "directmlexecutionprovider"@,
    ) {
        Some("DmlExecutionProvider"@)
    } else if k == codes("rocm"@) || k == codes("rocmexecutionprovider"@) {
        Some("RocmExecutionProvider"@)
    } else {
        None
    }
}

/// Unicode `White_Space`, the whitespace that `str::trim` removes.
pub open spec fn is_white_space(c: char) -> bool {
    let x = c as u32;
    (9 <= x <= 13) || x == 32 || x == 0x85 || x == 0xA0 || x == 0x1680 || (0x2000 <= x <= 0x200A)
        || x == 0x2028 || x == 0x2029 || x == 0x202F || x == 0x205F || x == 0x3000
}

pub open spec fn trim_front(s: Seq<char>) -> Seq<char>
    decreases s.len(),
{
    if s.len() > 0 && is_white_space(s[0]) {
        trim_front(s.drop_first())
    } else {
        s
    }
}

pub open spec fn trim_back(s: Seq<char>) -> Seq<char>
    decreases s.len(),
{
    if s.len() > 0 && is_white_space(s.last()) {
        trim_back(s.drop_last())
    } else {
        s
    }
}

/// A text without its leading and trailing whitespace.
pub open spec fn trim(s: Seq<char>) -> Seq<char> {
    trim_back(trim_front(s))
}

/// The canonical name of a provider: the standard name of a recognised
/// alias, otherwise the given name without surrounding whitespace.
pub open spec fn canonical(name: Seq<char>) -> Seq<char> {
    match known_provider(compact_key(name)) {
        Some(p) => p,
        None => trim(name),
    }
}

proof fn lemma_trim_front_from(s: Seq<char>, a: int)
    requires
        0 <= a <= s.len(),
        forall|j: int| 0 <= j < a ==> is_white_space(#[trigger] s[j]),
        a == s.len() || !is_white_space(s[a]),
    ensures
        trim_front(s) == s.subrange(a, s.len() as int),
    decreases a,
{
    if a == 0 {
        assert(s.subrange(0, s.len() as int) =~= s);
    } else {
        let t = s.drop_first();
        assert forall|j: int| 0 <= j < a - 1 implies is_white_space(#[trigger] t[j]) by {
            assert(t[j] == s[j + 1]);
        }
        if a - 1 < t.len() {
            assert(t[a - 1] == s[a]);
        }
        lemma_trim_front_from(t, a - 1);
        assert(t.subrange(a - 1, t.len() as int) =~= s.subrange(a, s.len() as int));
    }
}

proof fn lemma_trim_back_to(s: Seq<char>, b: int)
    requires
        0 <= b <= s.len(),
        forall|j: int| b <= j < s.len() ==> is_white_space(#[trigger] s[j]),
        b == 0 || !is_white_space(s[b - 1]),
    ensures
        trim_back(s) == s.subrange(0, b),
    decreases s.len() - b,
{
    if b == s.len() {
        assert(s.subrange(0, b) =~= s);
    } else {
        let t = s.drop_last();
        assert forall|j: int| b <= j < t.len() implies is_white_space(#[trigger] t[j]) by {
            assert(t[j] == s[j]);
        }
        if b > 0 {
            assert(t[b - 1] == s[b - 1]);
        }
        lemma_trim_back_to(t, b);
        assert(t.subrange(0, b) =~= s.subrange(0, b));
    }
}

fn is_white_space_exec(c: char) -> (r: bool)
    ensures
        r == is_white_space(c),
{
    let x = c as u32;
    (9 <= x && x <= 13) || x == 32 || x == 0x85 || x == 0xA0 || x == 0x1680 || (0x2000 <= x && x
        <= 0x200A) || x == 0x2028 || x == 0x2029 || x == 0x202F || x == 0x205F || x == 0x3000
}

/// The text without leading and trailing Unicode whitespace, as `str::trim` gives it.
pub fn trim_text(s: &str) -> (r: String)
    ensures
        r@ == trim(s@),
{
    let n = s.unicode_len();
    let mut a: usize = 0;
    while a < n && is_white_space_exec(s.get_char(a))
        invariant
            n == s@.len(),
            a <= n,
            forall|j: int| 0 <= j < a ==> is_white_space(#[trigger] s@[j]),
        decreases n - a,
    {
        a = a + 1;
    }
    proof {
        lemma_trim_front_from(s@, a as int);
    }
    let ghost front = s@.subrange(a as int, n as int);
    let mut b: usize = n;
    while b > a && is_white_space_exec(s.get_char(b - 1))
        invariant
            n == s@.len(),
            a <= b <= n,
            forall|j: int| b <= j < n ==> is_white_space(#[trigger] s@[j]),
        decreases b - a,
    {
        b = b - 1;
    }
    proof {
        assert forall|j: int| b - a <= j < front.len() implies is_white_space(
            #[trigger] front[j],
        ) by {
            assert(front[j] == s@[j + a]);
        }
        if b > a {
            assert(front[b - a - 1] == s@[b - 1]);
        }
        lemma_trim_back_to(front, b - a);
        assert(front.subrange(0, b - a) =~= s@.subrange(a as int, b as int));
    }
    String::from_str(s.substring_char(a, b))
}

/// Whether a sequence of code points spells the text `lit`.
fn codes_equal(k: &Vec<u32>, lit: &str) -> (r: bool)
    ensures
        r == (k@ == codes(lit@)),
{
    let n = lit.unicode_len();
    if k.len() != n {
        return false;
    }
    let mut i: usize = 0;
    while i < n
        invariant
            n == lit@.len(),
            n == k@.len(),
            i <= n,
            forall|j: int| 0 <= j < i ==> k@[j] == (lit@[j] as u32),
        decreases n - i,
    {
        if k[i] != lit.get_char(i) as u32 {
            assert(codes(lit@)[i as int] == lit@[i as int] as u32);
            return false;
        }
        i = i + 1;
    }
    assert(k@ =~= codes(lit@));
    true
}

/// The alias key of a provider name.
fn compact_key_exec(name: &str) -> (k: Vec<u32>)
    ensures
        k@ == compact_key(name@),
{
    let n = name.unicode_len();
    let mut k: Vec<u32> = Vec::new();
    let mut i: usize = 0;
    while i < n
        invariant
            n == name@.len(),
            i <= n,
            k@ == compact_key(name@.subrange(0, i as int)),
        decreases n - i,
    {
        let x = name.get_char(i) as u32;
        let ghost prefix = name@.subrange(0, i as int + 1);
        assert(prefix.drop_last() =~= name@.subrange(0, i as int));
        if (48 <= x && x <= 57) || (97 <= x && x <= 122) {
            k.push(x);
        } else if 65 <= x && x <= 90 {
            k.push(x + 32);
        }
        assert(k@ =~= compact_key(prefix));
        i = i + 1;
    }
    assert(name@.subrange(0, n as int) =~= name@);
    k
}

/// The canonical provider name for `name`: `CPUExecutionProvider` for
/// `"cpu"`, `"CPU EP"` and the like, otherwise `name` trimmed.
pub fn canonical_provider(name: &str) -> (r: String)
    ensures
        r@ == canonical(name@),
{
    let k = compact_key_exec(name);
    if codes_equal(&k, "cpu") || codes_equal(&k, "cpuep") || codes_equal(
        &k,
        "cpuexecutionprovider",
    ) {
        String::from_str("CPUExecutionProvider")
    } else if codes_equal(&k, "cuda") || codes_equal(&k, "cudaprovider") || codes_equal(
        &k,
        "cudagpuexecutionprovider",
    ) || codes_equal(&k, "cudagpuep") {
        String::from_str("CUDAExecutionProvider")
    } else if codes_equal(&k, "coreml") || codes_equal(&k, "coremlep") || codes_equal(
        &k,
        "coremlexecutionprovider",
    ) || codes_equal(&k, "core") {
        String::from_str("CoreMLExecutionProvider")
    } else if codes_equal(&k, "openvino") || codes_equal(&k, "openvinoexecutionprovider") {
        String::from_str("OpenVINOExecutionProvider")
    } else if codes_equal(&k, "tensorrt") || codes_equal(&k, "tensorrtexecutionprovider") {
        String::from_str("TensorRTExecutionProvider")
    } else if codes_equal(&k, "dml") || codes_equal(&k, "directml") || codes_equal(
        &k,
        "directmlexecutionprovider",
    ) {
        String::from_str("DmlExecutionProvider")
    } else if codes_equal(&k, "rocm") || codes_equal(&k, "rocmexecutionprovider") {
        String::from_str("RocmExecutionProvider")
    } else {
        trim_text(name)
    }
}

/// The canonical names of a list of providers.
pub open spec fn canonical_all(values: Seq<String>) -> Seq<Seq<char>> {
    values.map_values(|v: String| canonical(v@))
}

/// The distinct canonical names of `values`, each once, in the order of its
/// first occurrence: the set of providers a host offers.
pub fn normalized_set(values: &[String]) -> (r: Vec<String>)
    ensures
        texts(r@).no_duplicates(),
        forall|x: Seq<char>| texts(r@).contains(x) <==> canonical_all(values@).contains(x),
{
    let mut r: Vec<String> = Vec::new();
    let mut i: usize = 0;
    while i < values.len()
        invariant
            i <= values@.len(),
            texts(r@).no_duplicates(),
            forall|x: Seq<char>|
                texts(r@).contains(x) <==> canonical_all(values@.subrange(0, i as int)).contains(x),
        decreases values@.len() - i,
    {
        let c = canonical_provider(values[i].as_str());
        let ghost before = r@;
        let ghost prefix = values@.subrange(0, i as int);
        let ghost next = values@.subrange(0, i as int + 1);
        assert(canonical_all(next) =~= canonical_all(prefix).push(c@));
        if !contains_text(&r, &c) {
            r.push(c);
            assert(texts(r@) =~= texts(before).push(c@));
            assert forall|a: int, b: int|
                0 <= a < b < texts(r@).len() implies texts(r@)[a] != texts(r@)[b] by {
                if b == texts(before).len() {
                    assert(texts(r@)[a] == texts(before)[a]);
                    assert(!texts(before).contains(c@));
                }
            }
        }
        assert forall|x: Seq<char>| texts(r@).contains(x) <==> canonical_all(next).contains(x) by {
            if canonical_all(next).contains(x) {
                let k = choose|k: int| 0 <= k < canonical_all(next).len() && canonical_all(next)[k]
                    == x;
                if k < canonical_all(prefix).len() {
                    assert(canonical_all(prefix)[k] == x);
                    assert(texts(before).contains(x));
                    let m = choose|m: int| 0 <= m < texts(before).len() && texts(before)[m] == x;
                    assert(texts(r@)[m] == x);
                } else {
                    assert(x == c@);
                    if texts(before).contains(c@) {
                        let m = choose|m: int| 0 <= m < texts(before).len() && texts(before)[m]
                            == x;
                        assert(texts(r@)[m] == x);
                    } else {
                        assert(texts(r@)[texts(r@).len() - 1] == x);
                    }
                }
            }
            if texts(r@).contains(x) {
                let m = choose|m: int| 0 <= m < texts(r@).len() && texts(r@)[m] == x;
                if m < texts(before).len() {
                    assert(texts(before)[m] == x);
                    assert(texts(before).contains(x));
                    assert(canonical_all(prefix).contains(x));
                    let k = choose|k: int| 0 <= k < canonical_all(prefix).len()
                        && canonical_all(prefix)[k] == x;
                    assert(canonical_all(next)[k] == x);
                } else {
                    assert(x == c@);
                    assert(canonical_all(next)[canonical_all(next).len() - 1] == x);
                }
            }
        }
        i = i + 1;
    }
    assert(values@.subrange(0, values@.len() as int) =~= values@);
    r
}

fn contains_text(v: &Vec<String>, s: &String) -> (r: bool)
    ensures
        r == texts(v@).contains(s@),
{
    let mut i: usize = 0;
    while i < v.len()
        invariant
            i <= v@.len(),
            forall|j: int| 0 <= j < i ==> v@[j]@ != s@,
        decreases v@.len() - i,
    {
        if v[i] == *s {
            assert(texts(v@)[i as int] == s@);
            return true;
        }
        i = i + 1;
    }
    assert forall|j: int| 0 <= j < texts(v@).len() implies texts(v@)[j] != s@ by {
        assert(texts(v@)[j] == v@[j]@);
    }
    false
}

/// The dry-run report: nothing is probed.
pub open spec fn dry_run_view(request: Seq<char>) -> ReportView {
    ReportView {
        requested_provider: canonical(request),
        status: ProviderProbeStatus::NotProbedDryRun,
        assignments: seq![
            AssignmentView {
                scope: AssignmentScope::RequestedOnly,
                requested_provider: canonical(request),
                observed_provider: None,
                observed_with: ObservedWith::DryRun,
                evidence: "ORT probe intentionally not executed in this minimal mode"@,
            },
        ],
        granularity: ProviderAssignmentGranularity::DryRun,
        errors: seq![
            "No CUDA/ORT runtime probe executed in this prototype"@,
            "Use --fixture to run deterministic host simulation"@,
        ],
    }
}

/// The report of a dry run for `requested_provider`.
pub fn build_dry_run_report(requested_provider: &str) -> (r: ProbeReport)
    ensures
        r@ == dry_run_view(requested_provider@),
{
    let assignment = ProviderAssignment {
        scope: AssignmentScope::RequestedOnly,
        requested_provider: canonical_provider(requested_provider),
        observed_provider: None,
        observed_with: ObservedWith::DryRun,
        evidence: String::from_str("ORT probe intentionally not executed in this minimal mode"),
    };
    let mut errors: Vec<String> = Vec::new();
    errors.push(String::from_str("No CUDA/ORT runtime probe executed in this prototype"));
    errors.push(String::from_str("Use --fixture to run deterministic host simulation"));
    let mut assignments: Vec<ProviderAssignment> = Vec::new();
    assignments.push(assignment);
    let r = ProbeReport {
        requested_provider: canonical_provider(requested_provider),
        provider_probe_status: ProviderProbeStatus::NotProbedDryRun,
        observed_provider_assignment: assignments,
        provider_assignment_granularity: ProviderAssignmentGranularity::DryRun,
        errors,
    };
    assert(r@ =~= dry_run_view(requested_provider@));
    r
}

/// A fixture-based report: one session-scope assignment.
pub open spec fn session_view(
    requested: Seq<char>,
    status: ProviderProbeStatus,
    observed: Option<Seq<char>>,
    evidence: Seq<char>,
    errors: Seq<Seq<char>>,
) -> ReportView {
    ReportView {
        requested_provider: requested,
        status,
        assignments: seq![
            AssignmentView {
                scope: AssignmentScope::Session,
                requested_provider: requested,
                observed_provider: observed,
                observed_with: ObservedWith::Fixture,
                evidence,
            },
        ],
        granularity: ProviderAssignmentGranularity::Session,
        errors,
    }
}

fn session_report(
    requested: String,
    status: ProviderProbeStatus,
    observed: Option<String>,
    evidence: &str,
    errors: Vec<String>,
) -> (r: ProbeReport)
    ensures
        r@ == session_view(requested@, status, opt_text(observed), evidence@, texts(errors@)),
{
    let mut assignments: Vec<ProviderAssignment> = Vec::new();
    assignments.push(
        ProviderAssignment {
            scope: AssignmentScope::Session,
            requested_provider: requested.clone(),
            observed_provider: observed,
            observed_with: ObservedWith::Fixture,
            evidence: String::from_str(evidence),
        },
    );
    let r = ProbeReport {
        requested_provider: requested,
        provider_probe_status: status,
        observed_provider_assignment: assignments,
        provider_assignment_granularity: ProviderAssignmentGranularity::Session,
        errors,
    };
    assert(r@ =~= session_view(requested@, status, opt_text(observed), evidence@, texts(errors@)));
    r
}

/// The first entry of the fallback chain whose canonical name the host offers.
pub open spec fn first_fallback(chain: Seq<String>, available: Seq<Seq<char>>) -> Option<Seq<char>>
    decreases chain.len(),
{
    if chain.len() == 0 {
        None
    } else if available.contains(canonical(chain[0]@)) {
        Some(chain[0]@)
    } else {
        first_fallback(chain.drop_first(), available)
    }
}

/// The report for `request` against a simulated host, given the quoted
/// rendering of the request used in error texts.
pub open spec fn fixture_view(
    request: Seq<char>,
    request_quoted: Seq<char>,
    fixture: FixtureProbeState,
) -> ReportView {
    let requested = canonical(request);
    let available = canonical_all(fixture.available_providers@);
    if available.len() == 0 {
        session_view(
            requested,
            ProviderProbeStatus::RequestedProviderUnavailableNoFallback,
            None,
            "Fixture has no available_providers"@,
            seq!["Fixture simulates zero available providers"@],
        )
    } else if available.contains(requested) {
        session_view(
            requested,
            ProviderProbeStatus::RequestedProviderAvailable,
            Some(requested),
            "requested provider present in fixture availability list"@,
            Seq::empty(),
        )
    } else {
        match first_fallback(fixture.fallback_chain@, available) {
            Some(fallback) => session_view(
                requested,
                ProviderProbeStatus::RequestedProviderUnavailableWithFallback,
                Some(canonical(fallback)),
                "requested provider missing in fixture; selected first matching provider from fallback_chain"@,
                seq!["requested provider "@ + request_quoted + " was not available in fixture"@],
            ),
            None => session_view(
                requested,
                ProviderProbeStatus::RequestedProviderUnavailableNoFallback,
                None,
                "requested provider missing and no matching provider in fixture fallback_chain"@,
                seq!["requested provider "@ + request_quoted + " not found in available providers"@],
            ),
        }
    }
}

proof fn lemma_first_fallback_same_members(
    chain: Seq<String>,
    a: Seq<Seq<char>>,
    b: Seq<Seq<char>>,
)
    requires
        forall|x: Seq<char>| a.contains(x) <==> b.contains(x),
    ensures
        first_fallback(chain, a) == first_fallback(chain, b),
    decreases chain.len(),
{
    if chain.len() > 0 {
        assert(a.contains(canonical(chain[0]@)) == b.contains(canonical(chain[0]@)));
        lemma_first_fallback_same_members(chain.drop_first(), a, b);
    }
}

fn find_fallback(chain: &Vec<String>, available: &Vec<String>) -> (r: Option<usize>)
    ensures
        match r {
            Some(i) => i < chain@.len() && first_fallback(chain@, texts(available@)) == Some(
                chain@[i as int]@,
            ),
            None => first_fallback(chain@, texts(available@)) is None,
        },
{
    let mut i: usize = 0;
    assert(chain@.subrange(0, chain@.len() as int) =~= chain@);
    while i < chain.len()
        invariant
            i <= chain@.len(),
            first_fallback(chain@, texts(available@)) == first_fallback(
                chain@.subrange(i as int, chain@.len() as int),
                texts(available@),
            ),
        decreases chain@.len() - i,
    {
        let ghost rest = chain@.subrange(i as int, chain@.len() as int);
        assert(rest[0] == chain@[i as int]);
        assert(rest.drop_first() =~= chain@.subrange(i as int + 1, chain@.len() as int));
        let c = canonical_provider(chain[i].as_str());
        if contains_text(available, &c) {
            return Some(i);
        }
        i = i + 1;
    }
    None
}

/// The report for `request` against the simulated host `fixture`, where
/// `request_quoted` is how error texts quote the request.
pub fn fixture_report_from(request: &str, request_quoted: &str, fixture: &FixtureProbeState) -> (r:
    ProbeReport)
    ensures
        r@ == fixture_view(request@, request_quoted@, *fixture),
{
    let requested = canonical_provider(request);
    let available = normalized_set(fixture.available_providers.as_slice());
    proof {
        let all = canonical_all(fixture.available_providers@);
        let seen = texts(available@);
        lemma_first_fallback_same_members(fixture.fallback_chain@, seen, all);
        if all.len() > 0 {
            assert(all.contains(all[0]));
            assert(seen.contains(all[0]));
        }
        if seen.len() > 0 {
            assert(seen.contains(seen[0]));
            assert(all.contains(seen[0]));
        }
        assert(seen.contains(requested@) == all.contains(requested@));
    }
    if available.len() == 0 {
        let mut errors: Vec<String> = Vec::new();
        errors.push(String::from_str("Fixture simulates zero available providers"));
        assert(texts(errors@) =~= seq!["Fixture simulates zero available providers"@]);
        return session_report(
            requested,
            ProviderProbeStatus::RequestedProviderUnavailableNoFallback,
            None,
            "Fixture has no available_providers",
            errors,
        );
    }
    if contains_text(&available, &requested) {
        let observed = requested.clone();
        let errors: Vec<String> = Vec::new();
        assert(texts(errors@) =~= Seq::<Seq<char>>::empty());
        return session_report(
            requested,
            ProviderProbeStatus::RequestedProviderAvailable,
            Some(observed),
            "requested provider present in fixture availability list",
            errors,
        );
    }
    match find_fallback(&fixture.fallback_chain, &available) {
        Some(i) => {
            let fallback_provider = canonical_provider(fixture.fallback_chain[i].as_str());
            let mut message = String::from_str("requested provider ");
            message.append(request_quoted);
            message.append(" was not available in fixture");
            let mut errors: Vec<String> = Vec::new();
            let ghost m = message@;
            errors.push(message);
            assert(texts(errors@) =~= seq![m]);
            session_report(
                requested,
                ProviderProbeStatus::RequestedProviderUnavailableWithFallback,
                Some(fallback_provider),
                "requested provider missing in fixture; selected first matching provider from fallback_chain",
                errors,
            )
        },
        None => {
            let mut message = String::from_str("requested provider ");
            message.append(request_quoted);
            message.append(" not found in available providers");
            let mut errors: Vec<String> = Vec::new();
            let ghost m = message@;
            errors.push(message);
            assert(texts(errors@) =~= seq![m]);
            session_report(
                requested,
                ProviderProbeStatus::RequestedProviderUnavailableNoFallback,
                None,
                "requested provider missing and no matching provider in fixture fallback_chain",
                errors,
            )
        },
    }
}

/// The report for `request` against the simulated host `fixture`; error
/// texts quote the request as `{:?}` does.
pub fn build_fixture_report(request: &str, fixture: &FixtureProbeState) -> (r: ProbeReport)
    ensures
        r@ == fixture_view(request@, debug_text(request@), *fixture),
        plain_text(request@) ==> r@ == fixture_view(
            request@,
            seq!['"'] + request@ + seq!['"'],
            *fixture,
        ),
{
    let quoted = debug_quoted(request);
    fixture_report_from(request, quoted.as_str(), fixture)
}

/// The report for a fixture that could not be read or parsed.
pub open spec fn invalid_fixture_view(request: Seq<char>, message: Seq<char>) -> ReportView {
    ReportView {
        requested_provider: canonical(request),
        status: ProviderProbeStatus::FixtureInvalid,
        assignments: seq![
            AssignmentView {
                scope: AssignmentScope::RequestedOnly,
                requested_provider: canonical(request),
                observed_provider: None,
                observed_with: ObservedWith::DryRun,
                evidence: "failed to parse fixture: "@ + message,
            },
        ],
        granularity: ProviderAssignmentGranularity::NotProbed,
        errors: seq![message],
    }
}

/// The report of a probe request. `loaded_fixture` is the outcome of
/// reading and parsing the request's fixture, absent when it names none:
/// no fixture gives the dry run, a broken one the invalid-fixture report.
pub fn run_probe(request: &ProbeRequest, loaded_fixture: Option<Result<FixtureProbeState, ProbeError>>) -> (r:
    ProbeReport)
    ensures
        r@ == match loaded_fixture {
            None => dry_run_view(request.requested_provider@),
            Some(Ok(fixture)) => fixture_view(
                request.requested_provider@,
                debug_text(request.requested_provider@),
                fixture,
            ),
            Some(Err(err)) => invalid_fixture_view(request.requested_provider@, err.message@),
        },
{
    match loaded_fixture {
        Some(Ok(fixture)) => build_fixture_report(request.requested_provider.as_str(), &fixture),
        Some(Err(err)) => {
            let mut evidence = String::from_str("failed to parse fixture: ");
            evidence.append(err.message.as_str());
            let assignment = ProviderAssignment {
                scope: AssignmentScope::RequestedOnly,
                requested_provider: canonical_provider(request.requested_provider.as_str()),
                observed_provider: None,
                observed_with: ObservedWith::DryRun,
                evidence,
            };
            let mut assignments: Vec<ProviderAssignment> = Vec::new();
            assignments.push(assignment);
            let mut errors: Vec<String> = Vec::new();
            let ghost m = err.message@;
            errors.push(err.message);
            let r = ProbeReport {
                requested_provider: canonical_provider(request.requested_provider.as_str()),
                provider_probe_status: ProviderProbeStatus::FixtureInvalid,
                observed_provider_assignment: assignments,
                provider_assignment_granularity: ProviderAssignmentGranularity::NotProbed,
                errors,
            };
            assert(r@ =~= invalid_fixture_view(request.requested_provider@, m));
            r
        },
        None => build_dry_run_report(request.requested_provider.as_str()),
    }
}


proof fn lemma_compact_concat(a: Seq<char>, b: Seq<char>)
    ensures
        compact_key(a + b) == compact_key(a) + compact_key(b),
    decreases b.len(),
{
    if b.len() == 0 {
        assert(a + b =~= a);
        assert(compact_key(a) + compact_key(b) =~= compact_key(a));
    } else {
        assert((a + b).drop_last() =~= a + b.drop_last());
        assert((a + b).last() == b.last());
        lemma_compact_concat(a, b.drop_last());
        assert(compact_key(a + b) =~= compact_key(a) + compact_key(b));
    }
}

proof fn lemma_compact_white(w: Seq<char>)
    requires
        forall|i: int| 0 <= i < w.len() ==> is_white_space(#[trigger] w[i]),
    ensures
        compact_key(w) == Seq::<u32>::empty(),
    decreases w.len(),
{
    if w.len() > 0 {
        let t = w.drop_last();
        assert forall|i: int| 0 <= i < t.len() implies is_white_space(#[trigger] t[i]) by {
            assert(t[i] == w[i]);
        }
        lemma_compact_white(t);
        assert(is_white_space(w[w.len() - 1]));
        assert(compact_key(w) =~= Seq::<u32>::empty());
    }
}

/// `trim_front` removes a whitespace prefix and leaves a text that does not
/// start with whitespace.
proof fn lemma_trim_front_shape(s: Seq<char>)
    ensures
        exists|k: int|
            0 <= k <= s.len() && trim_front(s) == s.subrange(k, s.len() as int) && (forall|i: int|
                0 <= i < k ==> is_white_space(#[trigger] s[i])),
        trim_front(s).len() > 0 ==> !is_white_space(trim_front(s)[0]),
    decreases s.len(),
{
    if s.len() > 0 && is_white_space(s[0]) {
        let t = s.drop_first();
        lemma_trim_front_shape(t);
        let k = choose|k: int|
            0 <= k <= t.len() && trim_front(t) == t.subrange(k, t.len() as int) && (forall|i: int|
                0 <= i < k ==> is_white_space(#[trigger] t[i]));
        assert(t.subrange(k, t.len() as int) =~= s.subrange(k + 1, s.len() as int));
        assert forall|i: int| 0 <= i < k + 1 implies is_white_space(#[trigger] s[i]) by {
            if i > 0 {
                assert(s[i] == t[i - 1]);
            }
        }
    } else {
        assert(s.subrange(0, s.len() as int) =~= s);
    }
}

/// `trim_back` removes a whitespace suffix and leaves a text that does not
/// end with whitespace.
proof fn lemma_trim_back_shape(s: Seq<char>)
    ensures
        exists|k: int|
            0 <= k <= s.len() && trim_back(s) == s.subrange(0, k) && (forall|i: int|
                k <= i < s.len() ==> is_white_space(#[trigger] s[i])),
        trim_back(s).len() > 0 ==> !is_white_space(trim_back(s).last()),
    decreases s.len(),
{
    if s.len() > 0 && is_white_space(s.last()) {
        let t = s.drop_last();
        lemma_trim_back_shape(t);
        let k = choose|k: int|
            0 <= k <= t.len() && trim_back(t) == t.subrange(0, k) && (forall|i: int|
                k <= i < t.len() ==> is_white_space(#[trigger] t[i]));
        assert(t.subrange(0, k) =~= s.subrange(0, k));
        assert forall|i: int| k <= i < s.len() implies is_white_space(#[trigger] s[i]) by {
            if i < t.len() {
                assert(s[i] == t[i]);
            }
        }
    } else {
        assert(s.subrange(0, s.len() as int) =~= s);
    }
}

/// Trimming keeps the alias key: whitespace holds no letters or digits.
proof fn lemma_trim_keeps_key(s: Seq<char>)
    ensures
        compact_key(trim(s)) == compact_key(s),
{
    lemma_trim_front_shape(s);
    let f = trim_front(s);
    let k = choose|k: int|
        0 <= k <= s.len() && trim_front(s) == s.subrange(k, s.len() as int) && (forall|i: int|
            0 <= i < k ==> is_white_space(#[trigger] s[i]));
    let w1 = s.subrange(0, k);
    assert forall|i: int| 0 <= i < w1.len() implies is_white_space(#[trigger] w1[i]) by {
        assert(w1[i] == s[i]);
    }
    assert(s =~= w1 + f);
    lemma_compact_concat(w1, f);
    lemma_compact_white(w1);
    lemma_trim_back_shape(f);
    let j = choose|j: int|
        0 <= j <= f.len() && trim_back(f) == f.subrange(0, j) && (forall|i: int|
            j <= i < f.len() ==> is_white_space(#[trigger] f[i]));
    let w2 = f.subrange(j, f.len() as int);
    assert forall|i: int| 0 <= i < w2.len() implies is_white_space(#[trigger] w2[i]) by {
        assert(w2[i] == f[i + j]);
    }
    assert(f =~= trim_back(f) + w2);
    lemma_compact_concat(trim_back(f), w2);
    lemma_compact_white(w2);
    assert(compact_key(s) =~= compact_key(trim(s)));
}

/// Trimming twice is trimming once.
proof fn lemma_trim_idempotent(s: Seq<char>)
    ensures
        trim(trim(s)) == trim(s),
{
    let f = trim_front(s);
    lemma_trim_front_shape(s);
    lemma_trim_back_shape(f);
    let y = trim_back(f);
    let j = choose|j: int|
        0 <= j <= f.len() && trim_back(f) == f.subrange(0, j) && (forall|i: int|
            j <= i < f.len() ==> is_white_space(#[trigger] f[i]));
    if y.len() > 0 {
        assert(y[0] == f[0]);
        assert(trim_front(y) == y);
    } else {
        assert(trim_front(y) == y);
    }
    assert(trim_back(y) == y);
}

proof fn lemma_literal_trim(s: Seq<char>)
    requires
        s.len() > 0,
        !is_white_space(s[0]),
        !is_white_space(s.last()),
    ensures
        trim(s) == s,
{
}

/// Canonical names are fixed points of canonicalisation: applying
/// `canonical_provider` to its own result changes nothing.
pub proof fn law_canonical_idempotent(name: Seq<char>)
    ensures
        canonical(canonical(name)) == canonical(name),
{
    match known_provider(compact_key(name)) {
        Some(_) => {
            lemma_canonical_names_fixed();
        },
        None => {
            lemma_trim_keeps_key(name);
            lemma_trim_idempotent(name);
        },
    }
}

/// The alias key of a text made only of ASCII letters and digits is its
/// lowercase spelling.
proof fn lemma_key_of(p: Seq<char>, key: Seq<char>)
    requires
        p.len() == key.len(),
        forall|i: int| 0 <= i < p.len() ==> is_ascii_alnum_code(#[trigger] p[i] as u32),
        forall|i: int| 0 <= i < p.len() ==> ascii_lower_code(#[trigger] p[i] as u32) == key[i] as u32,
    ensures
        compact_key(p) == codes(key),
    decreases p.len(),
{
    if p.len() > 0 {
        let p1 = p.drop_last();
        let k1 = key.drop_last();
        assert forall|i: int| 0 <= i < p1.len() implies is_ascii_alnum_code(#[trigger] p1[i] as u32) by {
            assert(p1[i] == p[i]);
        }
        assert forall|i: int| 0 <= i < p1.len() implies ascii_lower_code(#[trigger] p1[i] as u32)
            == k1[i] as u32 by {
            assert(p1[i] == p[i]);
            assert(k1[i] == key[i]);
        }
        lemma_key_of(p1, k1);
        assert(is_ascii_alnum_code(p[p.len() - 1] as u32));
        assert(compact_key(p) =~= codes(key));
    } else {
        assert(codes(key) =~= Seq::<u32>::empty());
    }
}

proof fn lemma_fixed_cpu()
    ensures
        canonical("CPUExecutionProvider"@) == "CPUExecutionProvider"@,
{
    reveal_strlit("CPUExecutionProvider");
    reveal_strlit("cpuexecutionprovider");
    reveal_strlit("cpu");
    reveal_strlit("cpuep");
    reveal_strlit("cuda");
    reveal_strlit("cudaprovider");
    reveal_strlit("cudagpuexecutionprovider");
    reveal_strlit("cudagpuep");
    reveal_strlit("coreml");
    reveal_strlit("coremlep");
    reveal_strlit("coremlexecutionprovider");
    reveal_strlit("core");
    reveal_strlit("openvino");
    reveal_strlit("openvinoexecutionprovider");
    reveal_strlit("tensorrt");
    reveal_strlit("tensorrtexecutionprovider");
    reveal_strlit("dml");
    reveal_strlit("directml");
    reveal_strlit("directmlexecutionprovider");
    reveal_strlit("rocm");
    reveal_strlit("rocmexecutionprovider");
    lemma_key_of("CPUExecutionProvider"@, "cpuexecutionprovider"@);
    let key = codes("cpuexecutionprovider"@);
    assert(key.len() != codes("cpu"@).len());
    assert(key.len() != codes("cpuep"@).len());
    assert(key.len() != codes("cuda"@).len());
    assert(key.len() != codes("cudaprovider"@).len());
    assert(key.len() != codes("cudagpuexecutionprovider"@).len());
    assert(key.len() != codes("cudagpuep"@).len());
    assert(key.len() != codes("coreml"@).len());
    assert(key.len() != codes("coremlep"@).len());
    assert(key.len() != codes("coremlexecutionprovider"@).len());
    assert(key.len() != codes("core"@).len());
    assert(key.len() != codes("openvino"@).len());
    assert(key.len() != codes("openvinoexecutionprovider"@).len());
    assert(key.len() != codes("tensorrt"@).len());
    assert(key.len() != codes("tensorrtexecutionprovider"@).len());
    assert(key.len() != codes("dml"@).len());
    assert(key.len() != codes("directml"@).len());
    assert(key.len() != codes("directmlexecutionprovider"@).len());
    assert(key.len() != codes("rocm"@).len());
    assert(key.len() != codes("rocmexecutionprovider"@).len());
}

proof fn lemma_fixed_cuda()
    ensures
        canonical("CUDAExecutionProvider"@) == "CUDAExecutionProvider"@,
{
    reveal_strlit("CUDAExecutionProvider");
    reveal_strlit("cudaexecutionprovider");
    reveal_strlit("cpu");
    reveal_strlit("cpuep");
    reveal_strlit("cpuexecutionprovider");
    reveal_strlit("cuda");
    reveal_strlit("cudaprovider");
    reveal_strlit("cudagpuexecutionprovider");
    reveal_strlit("cudagpuep");
    reveal_strlit("coreml");
    reveal_strlit("coremlep");
    reveal_strlit("coremlexecutionprovider");
    reveal_strlit("core");
    reveal_strlit("openvino");
    reveal_strlit("openvinoexecutionprovider");
    reveal_strlit("tensorrt");
    reveal_strlit("tensorrtexecutionprovider");
    reveal_strlit("dml");
    reveal_strlit("directml");
    reveal_strlit("directmlexecutionprovider");
    reveal_strlit("rocm");
    reveal_strlit("rocmexecutionprovider");
    lemma_key_of("CUDAExecutionProvider"@, "cudaexecutionprovider"@);
    let key = codes("cudaexecutionprovider"@);
    assert(key.len() != codes("cpu"@).len());
    assert(key.len() != codes("cpuep"@).len());
    assert(key.len() != codes("cpuexecutionprovider"@).len());
    assert(key.len() != codes("cuda"@).len());
    assert(key.len() != codes("cudaprovider"@).len());
    assert(key.len() != codes("cudagpuexecutionprovider"@).len());
    assert(key.len() != codes("cudagpuep"@).len());
    assert(key.len() != codes("coreml"@).len());
    assert(key.len() != codes("coremlep"@).len());
    assert(key.len() != codes("coremlexecutionprovider"@).len());
    assert(key.len() != codes("core"@).len());
    assert(key.len() != codes("openvino"@).len());
    assert(key.len() != codes("openvinoexecutionprovider"@).len());
    assert(key.len() != codes("tensorrt"@).len());
    assert(key.len() != codes("tensorrtexecutionprovider"@).len());
    assert(key.len() != codes("dml"@).len());
    assert(key.len() != codes("directml"@).len());
    assert(key.len() != codes("directmlexecutionprovider"@).len());
    assert(key.len() != codes("rocm"@).len());
    assert(key[0] != codes("rocmexecutionprovider"@)[0]);
    lemma_literal_trim("CUDAExecutionProvider"@);
}

proof fn lemma_fixed_coreml()
    ensures
        canonical("CoreMLExecutionProvider"@) == "CoreMLExecutionProvider"@,
{
    reveal_strlit("CoreMLExecutionProvider");
    reveal_strlit("coremlexecutionprovider");
    reveal_strlit("cpu");
    reveal_strlit("cpuep");
    reveal_strlit("cpuexecutionprovider");
    reveal_strlit("cuda");
    reveal_strlit("cudaprovider");
    reveal_strlit("cudagpuexecutionprovider");
    reveal_strlit("cudagpuep");
    reveal_strlit("coreml");
    reveal_strlit("coremlep");
    reveal_strlit("core");
    reveal_strlit("openvino");
    reveal_strlit("openvinoexecutionprovider");
    reveal_strlit("tensorrt");
    reveal_strlit("tensorrtexecutionprovider");
    reveal_strlit("dml");
    reveal_strlit("directml");
    reveal_strlit("directmlexecutionprovider");
    reveal_strlit("rocm");
    reveal_strlit("rocmexecutionprovider");
    lemma_key_of("CoreMLExecutionProvider"@, "coremlexecutionprovider"@);
    let key = codes("coremlexecutionprovider"@);
    assert(key.len() != codes("cpu"@).len());
    assert(key.len() != codes("cpuep"@).len());
    assert(key.len() != codes("cpuexecutionprovider"@).len());
    assert(key.len() != codes("cuda"@).len());
    assert(key.len() != codes("cudaprovider"@).len());
    assert(key.len() != codes("cudagpuexecutionprovider"@).len());
    assert(key.len() != codes("cudagpuep"@).len());
    assert(key.len() != codes("coreml"@).len());
    assert(key.len() != codes("coremlep"@).len());
    assert(key.len() != codes("core"@).len());
    assert(key.len() != codes("openvino"@).len());
    assert(key.len() != codes("openvinoexecutionprovider"@).len());
    assert(key.len() != codes("tensorrt"@).len());
    assert(key.len() != codes("tensorrtexecutionprovider"@).len());
    assert(key.len() != codes("dml"@).len());
    assert(key.len() != codes("directml"@).len());
    assert(key.len() != codes("directmlexecutionprovider"@).len());
    assert(key.len() != codes("rocm"@).len());
    assert(key.len() != codes("rocmexecutionprovider"@).len());
}

proof fn lemma_fixed_openvino()
    ensures
        canonical("OpenVINOExecutionProvider"@) == "OpenVINOExecutionProvider"@,
{
    reveal_strlit("OpenVINOExecutionProvider");
    reveal_strlit("openvinoexecutionprovider");
    reveal_strlit("cpu");
    reveal_strlit("cpuep");
    reveal_strlit("cpuexecutionprovider");
    reveal_strlit("cuda");
    reveal_strlit("cudaprovider");
    reveal_strlit("cudagpuexecutionprovider");
    reveal_strlit("cudagpuep");
    reveal_strlit("coreml");
    reveal_strlit("coremlep");
    reveal_strlit("coremlexecutionprovider");
    reveal_strlit("core");
    reveal_strlit("openvino");
    reveal_strlit("tensorrt");
    reveal_strlit("tensorrtexecutionprovider");
    reveal_strlit("dml");
    reveal_strlit("directml");
    reveal_strlit("directmlexecutionprovider");
    reveal_strlit("rocm");
    reveal_strlit("rocmexecutionprovider");
    lemma_key_of("OpenVINOExecutionProvider"@, "openvinoexecutionprovider"@);
    let key = codes("openvinoexecutionprovider"@);
    assert(key.len() != codes("cpu"@).len());
    assert(key.len() != codes("cpuep"@).len());
    assert(key.len() != codes("cpuexecutionprovider"@).len());
    assert(key.len() != codes("cuda"@).len());
    assert(key.len() != codes("cudaprovider"@).len());
    assert(key.len() != codes("cudagpuexecutionprovider"@).len());
    assert(key.len() != codes("cudagpuep"@).len());
    assert(key.len() != codes("coreml"@).len());
    assert(key.len() != codes("coremlep"@).len());
    assert(key.len() != codes("coremlexecutionprovider"@).len());
    assert(key.len() != codes("core"@).len());
    assert(key.len() != codes("openvino"@).len());
    assert(key.len() != codes("tensorrt"@).len());
    assert(key[0] != codes("tensorrtexecutionprovider"@)[0]);
    assert(key.len() != codes("dml"@).len());
    assert(key.len() != codes("directml"@).len());
    assert(key[0] != codes("directmlexecutionprovider"@)[0]);
    assert(key.len() != codes("rocm"@).len());
    assert(key.len() != codes("rocmexecutionprovider"@).len());
}

proof fn lemma_fixed_tensorrt()
    ensures
        canonical("TensorRTExecutionProvider"@) == "TensorRTExecutionProvider"@,
{
    reveal_strlit("TensorRTExecutionProvider");
    reveal_strlit("tensorrtexecutionprovider");
    reveal_strlit("cpu");
    reveal_strlit("cpuep");
    reveal_strlit("cpuexecutionprovider");
    reveal_strlit("cuda");
    reveal_strlit("cudaprovider");
    reveal_strlit("cudagpuexecutionprovider");
    reveal_strlit("cudagpuep");
    reveal_strlit("coreml");
    reveal_strlit("coremlep");
    reveal_strlit("coremlexecutionprovider");
    reveal_strlit("core");
    reveal_strlit("openvino");
    reveal_strlit("openvinoexecutionprovider");
    reveal_strlit("tensorrt");
    reveal_strlit("dml");
    reveal_strlit("directml");
    reveal_strlit("directmlexecutionprovider");
    reveal_strlit("rocm");
    reveal_strlit("rocmexecutionprovider");
    lemma_key_of("TensorRTExecutionProvider"@, "tensorrtexecutionprovider"@);
    let key = codes("tensorrtexecutionprovider"@);
    assert(key.len() != codes("cpu"@).len());
    assert(key.len() != codes("cpuep"@).len());
    assert(key.len() != codes("cpuexecutionprovider"@).len());
    assert(key.len() != codes("cuda"@).len());
    assert(key.len() != codes("cudaprovider"@).len());
    assert(key.len() != codes("cudagpuexecutionprovider"@).len());
    assert(key.len() != codes("cudagpuep"@).len());
    assert(key.len() != codes("coreml"@).len());
    assert(key.len() != codes("coremlep"@).len());
    assert(key.len() != codes("coremlexecutionprovider"@).len());
    assert(key.len() != codes("core"@).len());
    assert(key.len() != codes("openvino"@).len());
    assert(key[0] != codes("openvinoexecutionprovider"@)[0]);
    assert(key.len() != codes("tensorrt"@).len());
    assert(key.len() != codes("dml"@).len());
    assert(key.len() != codes("directml"@).len());
    assert(key[0] != codes("directmlexecutionprovider"@)[0]);
    assert(key.len() != codes("rocm"@).len());
    assert(key.len() != codes("rocmexecutionprovider"@).len());
}

proof fn lemma_fixed_dml()
    ensures
        canonical("DmlExecutionProvider"@) == "DmlExecutionProvider"@,
{
    reveal_strlit("DmlExecutionProvider");
    reveal_strlit("dmlexecutionprovider");
    reveal_strlit("cpu");
    reveal_strlit("cpuep");
    reveal_strlit("cpuexecutionprovider");
    reveal_strlit("cuda");
    reveal_strlit("cudaprovider");
    reveal_strlit("cudagpuexecutionprovider");
    reveal_strlit("cudagpuep");
    reveal_strlit("coreml");
    reveal_strlit("coremlep");
    reveal_strlit("coremlexecutionprovider");
    reveal_strlit("core");
    reveal_strlit("openvino");
    reveal_strlit("openvinoexecutionprovider");
    reveal_strlit("tensorrt");
    reveal_strlit("tensorrtexecutionprovider");
    reveal_strlit("dml");
    reveal_strlit("directml");
    reveal_strlit("directmlexecutionprovider");
    reveal_strlit("rocm");
    reveal_strlit("rocmexecutionprovider");
    lemma_key_of("DmlExecutionProvider"@, "dmlexecutionprovider"@);
    let key = codes("dmlexecutionprovider"@);
    assert(key.len() != codes("cpu"@).len());
    assert(key.len() != codes("cpuep"@).len());
    assert(key[0] != codes("cpuexecutionprovider"@)[0]);
    assert(key.len() != codes("cuda"@).len());
    assert(key.len() != codes("cudaprovider"@).len());
    assert(key.len() != codes("cudagpuexecutionprovider"@).len());
    assert(key.len() != codes("cudagpuep"@).len());
    assert(key.len() != codes("coreml"@).len());
    assert(key.len() != codes("coremlep"@).len());
    assert(key.len() != codes("coremlexecutionprovider"@).len());
    assert(key.len() != codes("core"@).len());
    assert(key.len() != codes("openvino"@).len());
    assert(key.len() != codes("openvinoexecutionprovider"@).len());
    assert(key.len() != codes("tensorrt"@).len());
    assert(key.len() != codes("tensorrtexecutionprovider"@).len());
    assert(key.len() != codes("dml"@).len());
    assert(key.len() != codes("directml"@).len());
    assert(key.len() != codes("directmlexecutionprovider"@).len());
    assert(key.len() != codes("rocm"@).len());
    assert(key.len() != codes("rocmexecutionprovider"@).len());
    lemma_literal_trim("DmlExecutionProvider"@);
}

proof fn lemma_fixed_rocm()
    ensures
        canonical("RocmExecutionProvider"@) == "RocmExecutionProvider"@,
{
    reveal_strlit("RocmExecutionProvider");
    reveal_strlit("rocmexecutionprovider");
    reveal_strlit("cpu");
    reveal_strlit("cpuep");
    reveal_strlit("cpuexecutionprovider");
    reveal_strlit("cuda");
    reveal_strlit("cudaprovider");
    reveal_strlit("cudagpuexecutionprovider");
    reveal_strlit("cudagpuep");
    reveal_strlit("coreml");
    reveal_strlit("coremlep");
    reveal_strlit("coremlexecutionprovider");
    reveal_strlit("core");
    reveal_strlit("openvino");
    reveal_strlit("openvinoexecutionprovider");
    reveal_strlit("tensorrt");
    reveal_strlit("tensorrtexecutionprovider");
    reveal_strlit("dml");
    reveal_strlit("directml");
    reveal_strlit("directmlexecutionprovider");
    reveal_strlit("rocm");
    lemma_key_of("RocmExecutionProvider"@, "rocmexecutionprovider"@);
    let key = codes("rocmexecutionprovider"@);
    assert(key.len() != codes("cpu"@).len());
    assert(key.len() != codes("cpuep"@).len());
    assert(key.len() != codes("cpuexecutionprovider"@).len());
    assert(key.len() != codes("cuda"@).len());
    assert(key.len() != codes("cudaprovider"@).len());
    assert(key.len() != codes("cudagpuexecutionprovider"@).len());
    assert(key.len() != codes("cudagpuep"@).len());
    assert(key.len() != codes("coreml"@).len());
    assert(key.len() != codes("coremlep"@).len());
    assert(key.len() != codes("coremlexecutionprovider"@).len());
    assert(key.len() != codes("core"@).len());
    assert(key.len() != codes("openvino"@).len());
    assert(key.len() != codes("openvinoexecutionprovider"@).len());
    assert(key.len() != codes("tensorrt"@).len());
    assert(key.len() != codes("tensorrtexecutionprovider"@).len());
    assert(key.len() != codes("dml"@).len());
    assert(key.len() != codes("directml"@).len());
    assert(key.len() != codes("directmlexecutionprovider"@).len());
    assert(key.len() != codes("rocm"@).len());
}

proof fn lemma_canonical_names_fixed()
    ensures
        canonical("CPUExecutionProvider"@) == "CPUExecutionProvider"@,
        canonical("CUDAExecutionProvider"@) == "CUDAExecutionProvider"@,
        canonical("CoreMLExecutionProvider"@) == "CoreMLExecutionProvider"@,
        canonical("OpenVINOExecutionProvider"@) == "OpenVINOExecutionProvider"@,
        canonical("TensorRTExecutionProvider"@) == "TensorRTExecutionProvider"@,
        canonical("DmlExecutionProvider"@) == "DmlExecutionProvider"@,
        canonical("RocmExecutionProvider"@) == "RocmExecutionProvider"@,
{
    lemma_fixed_cpu();
    lemma_fixed_cuda();
    lemma_fixed_coreml();
    lemma_fixed_openvino();
    lemma_fixed_tensorrt();
    lemma_fixed_dml();
    lemma_fixed_rocm();
}

proof fn lemma_first_fallback_available(chain: Seq<String>, available: Seq<Seq<char>>)
    ensures
        first_fallback(chain, available) matches Some(f) ==> available.contains(canonical(f)),
    decreases chain.len(),
{
    if chain.len() > 0 && !available.contains(canonical(chain[0]@)) {
        lemma_first_fallback_available(chain.drop_first(), available);
    }
}

/// A fixture probe only ever reports a provider that the simulated host
/// offers: whenever the assignment names an observed provider, that provider
/// is among the canonical names of `available_providers`.
pub proof fn law_observed_provider_is_available(
    request: Seq<char>,
    request_quoted: Seq<char>,
    fixture: FixtureProbeState,
)
    ensures
        fixture_view(request, request_quoted, fixture).assignments.len() == 1,
        fixture_view(request, request_quoted, fixture).assignments[0].observed_provider matches Some(
            p,
        ) ==> canonical_all(fixture.available_providers@).contains(p),
{
    lemma_first_fallback_available(
        fixture.fallback_chain@,
        canonical_all(fixture.available_providers@),
    );
}

proof fn lemma_no_fallback_without_providers(chain: Seq<String>, available: Seq<Seq<char>>)
    requires
        available.len() == 0,
    ensures
        first_fallback(chain, available) is None,
    decreases chain.len(),
{
    if chain.len() > 0 {
        assert(!available.contains(canonical(chain[0]@)));
        lemma_no_fallback_without_providers(chain.drop_first(), available);
    }
}

/// The status of a fixture probe means what its name says: the requested
/// provider is available exactly when the host offers its canonical name;
/// otherwise the probe reports a fallback exactly when some entry of the
/// fallback chain is offered. Every fixture probe is judged per session.
pub proof fn law_probe_status_meaning(
    request: Seq<char>,
    request_quoted: Seq<char>,
    fixture: FixtureProbeState,
)
    ensures
        ({
            let v = fixture_view(request, request_quoted, fixture);
            let available = canonical_all(fixture.available_providers@);
            let fallback = first_fallback(fixture.fallback_chain@, available);
            &&& (v.status == ProviderProbeStatus::RequestedProviderAvailable) == available.contains(
                canonical(request),
            )
            &&& (v.status == ProviderProbeStatus::RequestedProviderUnavailableWithFallback) == (
            !available.contains(canonical(request)) && fallback is Some)
            &&& (v.status == ProviderProbeStatus::RequestedProviderUnavailableNoFallback) == (
            !available.contains(canonical(request)) && fallback is None)
            &&& v.granularity == ProviderAssignmentGranularity::Session
            &&& v.assignments[0].scope == AssignmentScope::Session
        }),
{
    let available = canonical_all(fixture.available_providers@);
    if available.len() == 0 {
        lemma_no_fallback_without_providers(fixture.fallback_chain@, available);
        assert(!available.contains(canonical(request)));
    }
}

/// The key of a text made of lowercase ASCII letters and digits is the text.
proof fn lemma_lowercase_key(a: Seq<char>)
    requires
        forall|i: int|
            0 <= i < a.len() ==> {
                let x = #[trigger] a[i] as u32;
                (48 <= x <= 57) || (97 <= x <= 122)
            },
    ensures
        compact_key(a) == codes(a),
{
    lemma_key_of(a, a);
}

proof fn lemma_codes_differ(a: Seq<char>, b: Seq<char>, i: int)
    requires
        0 <= i < a.len(),
        0 <= i < b.len(),
        a[i] as u32 != b[i] as u32,
    ensures
        codes(a) != codes(b),
{
    assert(codes(a)[i] == a[i] as u32);
    assert(codes(b)[i] == b[i] as u32);
    assert(codes(a)[i] != codes(b)[i]);
}

proof fn lemma_alias_cpu()
    ensures
        canonical("cpu"@) == "CPUExecutionProvider"@,
{
    reveal_strlit("CPUExecutionProvider");
    reveal_strlit("CUDAExecutionProvider");
    reveal_strlit("CoreMLExecutionProvider");
    reveal_strlit("DmlExecutionProvider");
    reveal_strlit("OpenVINOExecutionProvider");
    reveal_strlit("RocmExecutionProvider");
    reveal_strlit("TensorRTExecutionProvider");
    reveal_strlit("core");
    reveal_strlit("coreml");
    reveal_strlit("coremlep");
    reveal_strlit("coremlexecutionprovider");
    reveal_strlit("cpu");
    reveal_strlit("cpuep");
    reveal_strlit("cpuexecutionprovider");
    reveal_strlit("cuda");
    reveal_strlit("cudagpuep");
    reveal_strlit("cudagpuexecutionprovider");
    reveal_strlit("cudaprovider");
    reveal_strlit("directml");
    reveal_strlit("directmlexecutionprovider");
    reveal_strlit("dml");
    reveal_strlit("openvino");
    reveal_strlit("openvinoexecutionprovider");
    reveal_strlit("rocm");
    reveal_strlit("rocmexecutionprovider");
    reveal_strlit("tensorrt");
    reveal_strlit("tensorrtexecutionprovider");
    lemma_lowercase_key("cpu"@);
    assert(codes("cpu"@).len() != codes("cpuep"@).len());
    assert(codes("cpu"@).len() != codes("cpuexecutionprovider"@).len());
    assert(codes("cpu"@).len() != codes("cuda"@).len());
    assert(codes("cpu"@).len() != codes("cudaprovider"@).len());
    assert(codes("cpu"@).len() != codes("cudagpuexecutionprovider"@).len());
    assert(codes("cpu"@).len() != codes("cudagpuep"@).len());
    assert(codes("cpu"@).len() != codes("coreml"@).len());
    assert(codes("cpu"@).len() != codes("coremlep"@).len());
    assert(codes("cpu"@).len() != codes("coremlexecutionprovider"@).len());
    assert(codes("cpu"@).len() != codes("core"@).len());
    assert(codes("cpu"@).len() != codes("openvino"@).len());
    assert(codes("cpu"@).len() != codes("openvinoexecutionprovider"@).len());
    assert(codes("cpu"@).len() != codes("tensorrt"@).len());
    assert(codes("cpu"@).len() != codes("tensorrtexecutionprovider"@).len());
    lemma_codes_differ("cpu"@, "dml"@, 0);
    assert(codes("cpu"@).len() != codes("directml"@).len());
    assert(codes("cpu"@).len() != codes("directmlexecutionprovider"@).len());
    assert(codes("cpu"@).len() != codes("rocm"@).len());
    assert(codes("cpu"@).len() != codes("rocmexecutionprovider"@).len());
}

proof fn lemma_alias_cpuep()
    ensures
        canonical("cpuep"@) == "CPUExecutionProvider"@,
{
    reveal_strlit("CPUExecutionProvider");
    reveal_strlit("CUDAExecutionProvider");
    reveal_strlit("CoreMLExecutionProvider");
    reveal_strlit("DmlExecutionProvider");
    reveal_strlit("OpenVINOExecutionProvider");
    reveal_strlit("RocmExecutionProvider");
    reveal_strlit("TensorRTExecutionProvider");
    reveal_strlit("core");
    reveal_strlit("coreml");
    reveal_strlit("coremlep");
    reveal_strlit("coremlexecutionprovider");
    reveal_strlit("cpu");
    reveal_strlit("cpuep");
    reveal_strlit("cpuexecutionprovider");
    reveal_strlit("cuda");
    reveal_strlit("cudagpuep");
    reveal_strlit("cudagpuexecutionprovider");
    reveal_strlit("cudaprovider");
    reveal_strlit("directml");
    reveal_strlit("directmlexecutionprovider");
    reveal_strlit("dml");
    reveal_strlit("openvino");
    reveal_strlit("openvinoexecutionprovider");
    reveal_strlit("rocm");
    reveal_strlit("rocmexecutionprovider");
    reveal_strlit("tensorrt");
    reveal_strlit("tensorrtexecutionprovider");
    lemma_lowercase_key("cpuep"@);
    assert(codes("cpuep"@).len() != codes("cpu"@).len());
    assert(codes("cpuep"@).len() != codes("cpuexecutionprovider"@).len());
    assert(codes("cpuep"@).len() != codes("cuda"@).len());
    assert(codes("cpuep"@).len() != codes("cudaprovider"@).len());
    assert(codes("cpuep"@).len() != codes("cudagpuexecutionprovider"@).len());
    assert(codes("cpuep"@).len() != codes("cudagpuep"@).len());
    assert(codes("cpuep"@).len() != codes("coreml"@).len());
    assert(codes("cpuep"@).len() != codes("coremlep"@).len());
    assert(codes("cpuep"@).len() != codes("coremlexecutionprovider"@).len());
    assert(codes("cpuep"@).len() != codes("core"@).len());
    assert(codes("cpuep"@).len() != codes("openvino"@).len());
    assert(codes("cpuep"@).len() != codes("openvinoexecutionprovider"@).len());
    assert(codes("cpuep"@).len() != codes("tensorrt"@).len());
    assert(codes("cpuep"@).len() != codes("tensorrtexecutionprovider"@).len());
    assert(codes("cpuep"@).len() != codes("dml"@).len());
    assert(codes("cpuep"@).len() != codes("directml"@).len());
    assert(codes("cpuep"@).len() != codes("directmlexecutionprovider"@).len());
    assert(codes("cpuep"@).len() != codes("rocm"@).len());
    assert(codes("cpuep"@).len() != codes("rocmexecutionprovider"@).len());
}

proof fn lemma_alias_cpuexecutionprovider()
    ensures
        canonical("cpuexecutionprovider"@) == "CPUExecutionProvider"@,
{
    reveal_strlit("CPUExecutionProvider");
    reveal_strlit("CUDAExecutionProvider");
    reveal_strlit("CoreMLExecutionProvider");
    reveal_strlit("DmlExecutionProvider");
    reveal_strlit("OpenVINOExecutionProvider");
    reveal_strlit("RocmExecutionProvider");
    reveal_strlit("TensorRTExecutionProvider");
    reveal_strlit("core");
    reveal_strlit("coreml");
    reveal_strlit("coremlep");
    reveal_strlit("coremlexecutionprovider");
    reveal_strlit("cpu");
    reveal_strlit("cpuep");
    reveal_strlit("cpuexecutionprovider");
    reveal_strlit("cuda");
    reveal_strlit("cudagpuep");
    reveal_strlit("cudagpuexecutionprovider");
    reveal_strlit("cudaprovider");
    reveal_strlit("directml");
    reveal_strlit("directmlexecutionprovider");
    reveal_strlit("dml");
    reveal_strlit("openvino");
    reveal_strlit("openvinoexecutionprovider");
    reveal_strlit("rocm");
    reveal_strlit("rocmexecutionprovider");
    reveal_strlit("tensorrt");
    reveal_strlit("tensorrtexecutionprovider");
    lemma_lowercase_key("cpuexecutionprovider"@);
    assert(codes("cpuexecutionprovider"@).len() != codes("cpu"@).len());
    assert(codes("cpuexecutionprovider"@).len() != codes("cpuep"@).len());
    assert(codes("cpuexecutionprovider"@).len() != codes("cuda"@).len());
    assert(codes("cpuexecutionprovider"@).len() != codes("cudaprovider"@).len());
    assert(codes("cpuexecutionprovider"@).len() != codes("cudagpuexecutionprovider"@).len());
    assert(codes("cpuexecutionprovider"@).len() != codes("cudagpuep"@).len());
    assert(codes("cpuexecutionprovider"@).len() != codes("coreml"@).len());
    assert(codes("cpuexecutionprovider"@).len() != codes("coremlep"@).len());
    assert(codes("cpuexecutionprovider"@).len() != codes("coremlexecutionprovider"@).len());
    assert(codes("cpuexecutionprovider"@).len() != codes("core"@).len());
    assert(codes("cpuexecutionprovider"@).len() != codes("openvino"@).len());
    assert(codes("cpuexecutionprovider"@).len() != codes("openvinoexecutionprovider"@).len());
    assert(codes("cpuexecutionprovider"@).len() != codes("tensorrt"@).len());
    assert(codes("cpuexecutionprovider"@).len() != codes("tensorrtexecutionprovider"@).len());
    assert(codes("cpuexecutionprovider"@).len() != codes("dml"@).len());
    assert(codes("cpuexecutionprovider"@).len() != codes("directml"@).len());
    assert(codes("cpuexecutionprovider"@).len() != codes("directmlexecutionprovider"@).len());
    assert(codes("cpuexecutionprovider"@).len() != codes("rocm"@).len());
    assert(codes("cpuexecutionprovider"@).len() != codes("rocmexecutionprovider"@).len());
}

proof fn lemma_alias_cuda()
    ensures
        canonical("cuda"@) == "CUDAExecutionProvider"@,
{
    reveal_strlit("CPUExecutionProvider");
    reveal_strlit("CUDAExecutionProvider");
    reveal_strlit("CoreMLExecutionProvider");
    reveal_strlit("DmlExecutionProvider");
    reveal_strlit("OpenVINOExecutionProvider");
    reveal_strlit("RocmExecutionProvider");
    reveal_strlit("TensorRTExecutionProvider");
    reveal_strlit("core");
    reveal_strlit("coreml");
    reveal_strlit("coremlep");
    reveal_strlit("coremlexecutionprovider");
    reveal_strlit("cpu");
    reveal_strlit("cpuep");
    reveal_strlit("cpuexecutionprovider");
    reveal_strlit("cuda");
    reveal_strlit("cudagpuep");
    reveal_strlit("cudagpuexecutionprovider");
    reveal_strlit("cudaprovider");
    reveal_strlit("directml");
    reveal_strlit("directmlexecutionprovider");
    reveal_strlit("dml");
    reveal_strlit("openvino");
    reveal_strlit("openvinoexecutionprovider");
    reveal_strlit("rocm");
    reveal_strlit("rocmexecutionprovider");
    reveal_strlit("tensorrt");
    reveal_strlit("tensorrtexecutionprovider");
    lemma_lowercase_key("cuda"@);
    assert(codes("cuda"@).len() != codes("cpu"@).len());
    assert(codes("cuda"@).len() != codes("cpuep"@).len());
    assert(codes("cuda"@).len() != codes("cpuexecutionprovider"@).len());
    assert(codes("cuda"@).len() != codes("cudaprovider"@).len());
    assert(codes("cuda"@).len() != codes("cudagpuexecutionprovider"@).len());
    assert(codes("cuda"@).len() != codes("cudagpuep"@).len());
    assert(codes("cuda"@).len() != codes("coreml"@).len());
    assert(codes("cuda"@).len() != codes("coremlep"@).len());
    assert(codes("cuda"@).len() != codes("coremlexecutionprovider"@).len());
    lemma_codes_differ("cuda"@, "core"@, 1);
    assert(codes("cuda"@).len() != codes("openvino"@).len());
    assert(codes("cuda"@).len() != codes("openvinoexecutionprovider"@).len());
    assert(codes("cuda"@).len() != codes("tensorrt"@).len());
    assert(codes("cuda"@).len() != codes("tensorrtexecutionprovider"@).len());
    assert(codes("cuda"@).len() != codes("dml"@).len());
    assert(codes("cuda"@).len() != codes("directml"@).len());
    assert(codes("cuda"@).len() != codes("directmlexecutionprovider"@).len());
    lemma_codes_differ("cuda"@, "rocm"@, 0);
    assert(codes("cuda"@).len() != codes("rocmexecutionprovider"@).len());
}

proof fn lemma_alias_cudaprovider()
    ensures
        canonical("cudaprovider"@) == "CUDAExecutionProvider"@,
{
    reveal_strlit("CPUExecutionProvider");
    reveal_strlit("CUDAExecutionProvider");
    reveal_strlit("CoreMLExecutionProvider");
    reveal_strlit("DmlExecutionProvider");
    reveal_strlit("OpenVINOExecutionProvider");
    reveal_strlit("RocmExecutionProvider");
    reveal_strlit("TensorRTExecutionProvider");
    reveal_strlit("core");
    reveal_strlit("coreml");
    reveal_strlit("coremlep");
    reveal_strlit("coremlexecutionprovider");
    reveal_strlit("cpu");
    reveal_strlit("cpuep");
    reveal_strlit("cpuexecutionprovider");
    reveal_strlit("cuda");
    reveal_strlit("cudagpuep");
    reveal_strlit("cudagpuexecutionprovider");
    reveal_strlit("cudaprovider");
    reveal_strlit("directml");
    reveal_strlit("directmlexecutionprovider");
    reveal_strlit("dml");
    reveal_strlit("openvino");
    reveal_strlit("openvinoexecutionprovider");
    reveal_strlit("rocm");
    reveal_strlit("rocmexecutionprovider");
    reveal_strlit("tensorrt");
    reveal_strlit("tensorrtexecutionprovider");
    lemma_lowercase_key("cudaprovider"@);
    assert(codes("cudaprovider"@).len() != codes("cpu"@).len());
    assert(codes("cudaprovider"@).len() != codes("cpuep"@).len());
    assert(codes("cudaprovider"@).len() != codes("cpuexecutionprovider"@).len());
    assert(codes("cudaprovider"@).len() != codes("cuda"@).len());
    assert(codes("cudaprovider"@).len() != codes("cudagpuexecutionprovider"@).len());
    assert(codes("cudaprovider"@).len() != codes("cudagpuep"@).len());
    assert(codes("cudaprovider"@).len() != codes("coreml"@).len());
    assert(codes("cudaprovider"@).len() != codes("coremlep"@).len());
    assert(codes("cudaprovider"@).len() != codes("coremlexecutionprovider"@).len());
    assert(codes("cudaprovider"@).len() != codes("core"@).len());
    assert(codes("cudaprovider"@).len() != codes("openvino"@).len());
    assert(codes("cudaprovider"@).len() != codes("openvinoexecutionprovider"@).len());
    assert(codes("cudaprovider"@).len() != codes("tensorrt"@).len());
    assert(codes("cudaprovider"@).len() != codes("tensorrtexecutionprovider"@).len());
    assert(codes("cudaprovider"@).len() != codes("dml"@).len());
    assert(codes("cudaprovider"@).len() != codes("directml"@).len());
    assert(codes("cudaprovider"@).len() != codes("directmlexecutionprovider"@).len());
    assert(codes("cudaprovider"@).len() != codes("rocm"@).len());
    assert(codes("cudaprovider"@).len() != codes("rocmexecutionprovider"@).len());
}

proof fn lemma_alias_cudagpuexecutionprovider()
    ensures
        canonical("cudagpuexecutionprovider"@) == "CUDAExecutionProvider"@,
{
    reveal_strlit("CPUExecutionProvider");
    reveal_strlit("CUDAExecutionProvider");
    reveal_strlit("CoreMLExecutionProvider");
    reveal_strlit("DmlExecutionProvider");
    reveal_strlit("OpenVINOExecutionProvider");
    reveal_strlit("RocmExecutionProvider");
    reveal_strlit("TensorRTExecutionProvider");
    reveal_strlit("core");
    reveal_strlit("coreml");
    reveal_strlit("coremlep");
    reveal_strlit("coremlexecutionprovider");
    reveal_strlit("cpu");
    reveal_strlit("cpuep");
    reveal_strlit("cpuexecutionprovider");
    reveal_strlit("cuda");
    reveal_strlit("cudagpuep");
    reveal_strlit("cudagpuexecutionprovider");
    reveal_strlit("cudaprovider");
    reveal_strlit("directml");
    reveal_strlit("directmlexecutionprovider");
    reveal_strlit("dml");
    reveal_strlit("openvino");
    reveal_strlit("openvinoexecutionprovider");
    reveal_strlit("rocm");
    reveal_strlit("rocmexecutionprovider");
    reveal_strlit("tensorrt");
    reveal_strlit("tensorrtexecutionprovider");
    lemma_lowercase_key("cudagpuexecutionprovider"@);
    assert(codes("cudagpuexecutionprovider"@).len() != codes("cpu"@).len());
    assert(codes("cudagpuexecutionprovider"@).len() != codes("cpuep"@).len());
    assert(codes("cudagpuexecutionprovider"@).len() != codes("cpuexecutionprovider"@).len());
    assert(codes("cudagpuexecutionprovider"@).len() != codes("cuda"@).len());
    assert(codes("cudagpuexecutionprovider"@).len() != codes("cudaprovider"@).len());
    assert(codes("cudagpuexecutionprovider"@).len() != codes("cudagpuep"@).len());
    assert(codes("cudagpuexecutionprovider"@).len() != codes("coreml"@).len());
    assert(codes("cudagpuexecutionprovider"@).len() != codes("coremlep"@).len());
    assert(codes("cudagpuexecutionprovider"@).len() != codes("coremlexecutionprovider"@).len());
    assert(codes("cudagpuexecutionprovider"@).len() != codes("core"@).len());
    assert(codes("cudagpuexecutionprovider"@).len() != codes("openvino"@).len());
    assert(codes("cudagpuexecutionprovider"@).len() != codes("openvinoexecutionprovider"@).len());
    assert(codes("cudagpuexecutionprovider"@).len() != codes("tensorrt"@).len());
    assert(codes("cudagpuexecutionprovider"@).len() != codes("tensorrtexecutionprovider"@).len());
    assert(codes("cudagpuexecutionprovider"@).len() != codes("dml"@).len());
    assert(codes("cudagpuexecutionprovider"@).len() != codes("directml"@).len());
    assert(codes("cudagpuexecutionprovider"@).len() != codes("directmlexecutionprovider"@).len());
    assert(codes("cudagpuexecutionprovider"@).len() != codes("rocm"@).len());
    assert(codes("cudagpuexecutionprovider"@).len() != codes("rocmexecutionprovider"@).len());
}

proof fn lemma_alias_cudagpuep()
    ensures
        canonical("cudagpuep"@) == "CUDAExecutionProvider"@,
{
    reveal_strlit("CPUExecutionProvider");
    reveal_strlit("CUDAExecutionProvider");
    reveal_strlit("CoreMLExecutionProvider");
    reveal_strlit("DmlExecutionProvider");
    reveal_strlit("OpenVINOExecutionProvider");
    reveal_strlit("RocmExecutionProvider");
    reveal_strlit("TensorRTExecutionProvider");
    reveal_strlit("core");
    reveal_strlit("coreml");
    reveal_strlit("coremlep");
    reveal_strlit("coremlexecutionprovider");
    reveal_strlit("cpu");
    reveal_strlit("cpuep");
    reveal_strlit("cpuexecutionprovider");
    reveal_strlit("cuda");
    reveal_strlit("cudagpuep");
    reveal_strlit("cudagpuexecutionprovider");
    reveal_strlit("cudaprovider");
    reveal_strlit("directml");
    reveal_strlit("directmlexecutionprovider");
    reveal_strlit("dml");
    reveal_strlit("openvino");
    reveal_strlit("openvinoexecutionprovider");
    reveal_strlit("rocm");
    reveal_strlit("rocmexecutionprovider");
    reveal_strlit("tensorrt");
    reveal_strlit("tensorrtexecutionprovider");
    lemma_lowercase_key("cudagpuep"@);
    assert(codes("cudagpuep"@).len() != codes("cpu"@).len());
    assert(codes("cudagpuep"@).len() != codes("cpuep"@).len());
    assert(codes("cudagpuep"@).len() != codes("cpuexecutionprovider"@).len());
    assert(codes("cudagpuep"@).len() != codes("cuda"@).len());
    assert(codes("cudagpuep"@).len() != codes("cudaprovider"@).len());
    assert(codes("cudagpuep"@).len() != codes("cudagpuexecutionprovider"@).len());
    assert(codes("cudagpuep"@).len() != codes("coreml"@).len());
    assert(codes("cudagpuep"@).len() != codes("coremlep"@).len());
    assert(codes("cudagpuep"@).len() != codes("coremlexecutionprovider"@).len());
    assert(codes("cudagpuep"@).len() != codes("core"@).len());
    assert(codes("cudagpuep"@).len() != codes("openvino"@).len());
    assert(codes("cudagpuep"@).len() != codes("openvinoexecutionprovider"@).len());
    assert(codes("cudagpuep"@).len() != codes("tensorrt"@).len());
    assert(codes("cudagpuep"@).len() != codes("tensorrtexecutionprovider"@).len());
    assert(codes("cudagpuep"@).len() != codes("dml"@).len());
    assert(codes("cudagpuep"@).len() != codes("directml"@).len());
    assert(codes("cudagpuep"@).len() != codes("directmlexecutionprovider"@).len());
    assert(codes("cudagpuep"@).len() != codes("rocm"@).len());
    assert(codes("cudagpuep"@).len() != codes("rocmexecutionprovider"@).len());
}

proof fn lemma_alias_coreml()
    ensures
        canonical("coreml"@) == "CoreMLExecutionProvider"@,
{
    reveal_strlit("CPUExecutionProvider");
    reveal_strlit("CUDAExecutionProvider");
    reveal_strlit("CoreMLExecutionProvider");
    reveal_strlit("DmlExecutionProvider");
    reveal_strlit("OpenVINOExecutionProvider");
    reveal_strlit("RocmExecutionProvider");
    reveal_strlit("TensorRTExecutionProvider");
    reveal_strlit("core");
    reveal_strlit("coreml");
    reveal_strlit("coremlep");
    reveal_strlit("coremlexecutionprovider");
    reveal_strlit("cpu");
    reveal_strlit("cpuep");
    reveal_strlit("cpuexecutionprovider");
    reveal_strlit("cuda");
    reveal_strlit("cudagpuep");
    reveal_strlit("cudagpuexecutionprovider");
    reveal_strlit("cudaprovider");
    reveal_strlit("directml");
    reveal_strlit("directmlexecutionprovider");
    reveal_strlit("dml");
    reveal_strlit("openvino");
    reveal_strlit("openvinoexecutionprovider");
    reveal_strlit("rocm");
    reveal_strlit("rocmexecutionprovider");
    reveal_strlit("tensorrt");
    reveal_strlit("tensorrtexecutionprovider");
    lemma_lowercase_key("coreml"@);
    assert(codes("coreml"@).len() != codes("cpu"@).len());
    assert(codes("coreml"@).len() != codes("cpuep"@).len());
    assert(codes("coreml"@).len() != codes("cpuexecutionprovider"@).len());
    assert(codes("coreml"@).len() != codes("cuda"@).len());
    assert(codes("coreml"@).len() != codes("cudaprovider"@).len());
    assert(codes("coreml"@).len() != codes("cudagpuexecutionprovider"@).len());
    assert(codes("coreml"@).len() != codes("cudagpuep"@).len());
    assert(codes("coreml"@).len() != codes("coremlep"@).len());
    assert(codes("coreml"@).len() != codes("coremlexecutionprovider"@).len());
    assert(codes("coreml"@).len() != codes("core"@).len());
    assert(codes("coreml"@).len() != codes("openvino"@).len());
    assert(codes("coreml"@).len() != codes("openvinoexecutionprovider"@).len());
    assert(codes("coreml"@).len() != codes("tensorrt"@).len());
    assert(codes("coreml"@).len() != codes("tensorrtexecutionprovider"@).len());
    assert(codes("coreml"@).len() != codes("dml"@).len());
    assert(codes("coreml"@).len() != codes("directml"@).len());
    assert(codes("coreml"@).len() != codes("directmlexecutionprovider"@).len());
    assert(codes("coreml"@).len() != codes("rocm"@).len());
    assert(codes("coreml"@).len() != codes("rocmexecutionprovider"@).len());
}

proof fn lemma_alias_coremlep()
    ensures
        canonical("coremlep"@) == "CoreMLExecutionProvider"@,
{
    reveal_strlit("CPUExecutionProvider");
    reveal_strlit("CUDAExecutionProvider");
    reveal_strlit("CoreMLExecutionProvider");
    reveal_strlit("DmlExecutionProvider");
    reveal_strlit("OpenVINOExecutionProvider");
    reveal_strlit("RocmExecutionProvider");
    reveal_strlit("TensorRTExecutionProvider");
    reveal_strlit("core");
    reveal_strlit("coreml");
    reveal_strlit("coremlep");
    reveal_strlit("coremlexecutionprovider");
    reveal_strlit("cpu");
    reveal_strlit("cpuep");
    reveal_strlit("cpuexecutionprovider");
    reveal_strlit("cuda");
    reveal_strlit("cudagpuep");
    reveal_strlit("cudagpuexecutionprovider");
    reveal_strlit("cudaprovider");
    reveal_strlit("directml");
    reveal_strlit("directmlexecutionprovider");
    reveal_strlit("dml");
    reveal_strlit("openvino");
    reveal_strlit("openvinoexecutionprovider");
    reveal_strlit("rocm");
    reveal_strlit("rocmexecutionprovider");
    reveal_strlit("tensorrt");
    reveal_strlit("tensorrtexecutionprovider");
    lemma_lowercase_key("coremlep"@);
    assert(codes("coremlep"@).len() != codes("cpu"@).len());
    assert(codes("coremlep"@).len() != codes("cpuep"@).len());
    assert(codes("coremlep"@).len() != codes("cpuexecutionprovider"@).len());
    assert(codes("coremlep"@).len() != codes("cuda"@).len());
    assert(codes("coremlep"@).len() != codes("cudaprovider"@).len());
    assert(codes("coremlep"@).len() != codes("cudagpuexecutionprovider"@).len());
    assert(codes("coremlep"@).len() != codes("cudagpuep"@).len());
    assert(codes("coremlep"@).len() != codes("coreml"@).len());
    assert(codes("coremlep"@).len() != codes("coremlexecutionprovider"@).len());
    assert(codes("coremlep"@).len() != codes("core"@).len());
    lemma_codes_differ("coremlep"@, "openvino"@, 0);
    assert(codes("coremlep"@).len() != codes("openvinoexecutionprovider"@).len());
    lemma_codes_differ("coremlep"@, "tensorrt"@, 0);
    assert(codes("coremlep"@).len() != codes("tensorrtexecutionprovider"@).len());
    assert(codes("coremlep"@).len() != codes("dml"@).len());
    lemma_codes_differ("coremlep"@, "directml"@, 0);
    assert(codes("coremlep"@).len() != codes("directmlexecutionprovider"@).len());
    assert(codes("coremlep"@).len() != codes("rocm"@).len());
    assert(codes("coremlep"@).len() != codes("rocmexecutionprovider"@).len());
}

proof fn lemma_alias_coremlexecutionprovider()
    ensures
        canonical("coremlexecutionprovider"@) == "CoreMLExecutionProvider"@,
{
    reveal_strlit("CPUExecutionProvider");
    reveal_strlit("CUDAExecutionProvider");
    reveal_strlit("CoreMLExecutionProvider");
    reveal_strlit("DmlExecutionProvider");
    reveal_strlit("OpenVINOExecutionProvider");
    reveal_strlit("RocmExecutionProvider");
    reveal_strlit("TensorRTExecutionProvider");
    reveal_strlit("core");
    reveal_strlit("coreml");
    reveal_strlit("coremlep");
    reveal_strlit("coremlexecutionprovider");
    reveal_strlit("cpu");
    reveal_strlit("cpuep");
    reveal_strlit("cpuexecutionprovider");
    reveal_strlit("cuda");
    reveal_strlit("cudagpuep");
    reveal_strlit("cudagpuexecutionprovider");
    reveal_strlit("cudaprovider");
    reveal_strlit("directml");
    reveal_strlit("directmlexecutionprovider");
    reveal_strlit("dml");
    reveal_strlit("openvino");
    reveal_strlit("openvinoexecutionprovider");
    reveal_strlit("rocm");
    reveal_strlit("rocmexecutionprovider");
    reveal_strlit("tensorrt");
    reveal_strlit("tensorrtexecutionprovider");
    lemma_lowercase_key("coremlexecutionprovider"@);
    assert(codes("coremlexecutionprovider"@).len() != codes("cpu"@).len());
    assert(codes("coremlexecutionprovider"@).len() != codes("cpuep"@).len());
    assert(codes("coremlexecutionprovider"@).len() != codes("cpuexecutionprovider"@).len());
    assert(codes("coremlexecutionprovider"@).len() != codes("cuda"@).len());
    assert(codes("coremlexecutionprovider"@).len() != codes("cudaprovider"@).len());
    assert(codes("coremlexecutionprovider"@).len() != codes("cudagpuexecutionprovider"@).len());
    assert(codes("coremlexecutionprovider"@).len() != codes("cudagpuep"@).len());
    assert(codes("coremlexecutionprovider"@).len() != codes("coreml"@).len());
    assert(codes("coremlexecutionprovider"@).len() != codes("coremlep"@).len());
    assert(codes("coremlexecutionprovider"@).len() != codes("core"@).len());
    assert(codes("coremlexecutionprovider"@).len() != codes("openvino"@).len());
    assert(codes("coremlexecutionprovider"@).len() != codes("openvinoexecutionprovider"@).len());
    assert(codes("coremlexecutionprovider"@).len() != codes("tensorrt"@).len());
    assert(codes("coremlexecutionprovider"@).len() != codes("tensorrtexecutionprovider"@).len());
    assert(codes("coremlexecutionprovider"@).len() != codes("dml"@).len());
    assert(codes("coremlexecutionprovider"@).len() != codes("directml"@).len());
    assert(codes("coremlexecutionprovider"@).len() != codes("directmlexecutionprovider"@).len());
    assert(codes("coremlexecutionprovider"@).len() != codes("rocm"@).len());
    assert(codes("coremlexecutionprovider"@).len() != codes("rocmexecutionprovider"@).len());
}

proof fn lemma_alias_core()
    ensures
        canonical("core"@) == "CoreMLExecutionProvider"@,
{
    reveal_strlit("CPUExecutionProvider");
    reveal_strlit("CUDAExecutionProvider");
    reveal_strlit("CoreMLExecutionProvider");
    reveal_strlit("DmlExecutionProvider");
    reveal_strlit("OpenVINOExecutionProvider");
    reveal_strlit("RocmExecutionProvider");
    reveal_strlit("TensorRTExecutionProvider");
    reveal_strlit("core");
    reveal_strlit("coreml");
    reveal_strlit("coremlep");
    reveal_strlit("coremlexecutionprovider");
    reveal_strlit("cpu");
    reveal_strlit("cpuep");
    reveal_strlit("cpuexecutionprovider");
    reveal_strlit("cuda");
    reveal_strlit("cudagpuep");
    reveal_strlit("cudagpuexecutionprovider");
    reveal_strlit("cudaprovider");
    reveal_strlit("directml");
    reveal_strlit("directmlexecutionprovider");
    reveal_strlit("dml");
    reveal_strlit("openvino");
    reveal_strlit("openvinoexecutionprovider");
    reveal_strlit("rocm");
    reveal_strlit("rocmexecutionprovider");
    reveal_strlit("tensorrt");
    reveal_strlit("tensorrtexecutionprovider");
    lemma_lowercase_key("core"@);
    assert(codes("core"@).len() != codes("cpu"@).len());
    assert(codes("core"@).len() != codes("cpuep"@).len());
    assert(codes("core"@).len() != codes("cpuexecutionprovider"@).len());
    lemma_codes_differ("core"@, "cuda"@, 1);
    assert(codes("core"@).len() != codes("cudaprovider"@).len());
    assert(codes("core"@).len() != codes("cudagpuexecutionprovider"@).len());
    assert(codes("core"@).len() != codes("cudagpuep"@).len());
    assert(codes("core"@).len() != codes("coreml"@).len());
    assert(codes("core"@).len() != codes("coremlep"@).len());
    assert(codes("core"@).len() != codes("coremlexecutionprovider"@).len());
    assert(codes("core"@).len() != codes("openvino"@).len());
    assert(codes("core"@).len() != codes("openvinoexecutionprovider"@).len());
    assert(codes("core"@).len() != codes("tensorrt"@).len());
    assert(codes("core"@).len() != codes("tensorrtexecutionprovider"@).len());
    assert(codes("core"@).len() != codes("dml"@).len());
    assert(codes("core"@).len() != codes("directml"@).len());
    assert(codes("core"@).len() != codes("directmlexecutionprovider"@).len());
    lemma_codes_differ("core"@, "rocm"@, 0);
    assert(codes("core"@).len() != codes("rocmexecutionprovider"@).len());
}

proof fn lemma_alias_openvino()
    ensures
        canonical("openvino"@) == "OpenVINOExecutionProvider"@,
{
    reveal_strlit("CPUExecutionProvider");
    reveal_strlit("CUDAExecutionProvider");
    reveal_strlit("CoreMLExecutionProvider");
    reveal_strlit("DmlExecutionProvider");
    reveal_strlit("OpenVINOExecutionProvider");
    reveal_strlit("RocmExecutionProvider");
    reveal_strlit("TensorRTExecutionProvider");
    reveal_strlit("core");
    reveal_strlit("coreml");
    reveal_strlit("coremlep");
    reveal_strlit("coremlexecutionprovider");
    reveal_strlit("cpu");
    reveal_strlit("cpuep");
    reveal_strlit("cpuexecutionprovider");
    reveal_strlit("cuda");
    reveal_strlit("cudagpuep");
    reveal_strlit("cudagpuexecutionprovider");
    reveal_strlit("cudaprovider");
    reveal_strlit("directml");
    reveal_strlit("directmlexecutionprovider");
    reveal_strlit("dml");
    reveal_strlit("openvino");
    reveal_strlit("openvinoexecutionprovider");
    reveal_strlit("rocm");
    reveal_strlit("rocmexecutionprovider");
    reveal_strlit("tensorrt");
    reveal_strlit("tensorrtexecutionprovider");
    lemma_lowercase_key("openvino"@);
    assert(codes("openvino"@).len() != codes("cpu"@).len());
    assert(codes("openvino"@).len() != codes("cpuep"@).len());
    assert(codes("openvino"@).len() != codes("cpuexecutionprovider"@).len());
    assert(codes("openvino"@).len() != codes("cuda"@).len());
    assert(codes("openvino"@).len() != codes("cudaprovider"@).len());
    assert(codes("openvino"@).len() != codes("cudagpuexecutionprovider"@).len());
    assert(codes("openvino"@).len() != codes("cudagpuep"@).len());
    assert(codes("openvino"@).len() != codes("coreml"@).len());
    lemma_codes_differ("openvino"@, "coremlep"@, 0);
    assert(codes("openvino"@).len() != codes("coremlexecutionprovider"@).len());
    assert(codes("openvino"@).len() != codes("core"@).len());
    assert(codes("openvino"@).len() != codes("openvinoexecutionprovider"@).len());
    lemma_codes_differ("openvino"@, "tensorrt"@, 0);
    assert(codes("openvino"@).len() != codes("tensorrtexecutionprovider"@).len());
    assert(codes("openvino"@).len() != codes("dml"@).len());
    lemma_codes_differ("openvino"@, "directml"@, 0);
    assert(codes("openvino"@).len() != codes("directmlexecutionprovider"@).len());
    assert(codes("openvino"@).len() != codes("rocm"@).len());
    assert(codes("openvino"@).len() != codes("rocmexecutionprovider"@).len());
}

proof fn lemma_alias_openvinoexecutionprovider()
    ensures
        canonical("openvinoexecutionprovider"@) == "OpenVINOExecutionProvider"@,
{
    reveal_strlit("CPUExecutionProvider");
    reveal_strlit("CUDAExecutionProvider");
    reveal_strlit("CoreMLExecutionProvider");
    reveal_strlit("DmlExecutionProvider");
    reveal_strlit("OpenVINOExecutionProvider");
    reveal_strlit("RocmExecutionProvider");
    reveal_strlit("TensorRTExecutionProvider");
    reveal_strlit("core");
    reveal_strlit("coreml");
    reveal_strlit("coremlep");
    reveal_strlit("coremlexecutionprovider");
    reveal_strlit("cpu");
    reveal_strlit("cpuep");
    reveal_strlit("cpuexecutionprovider");
    reveal_strlit("cuda");
    reveal_strlit("cudagpuep");
    reveal_strlit("cudagpuexecutionprovider");
    reveal_strlit("cudaprovider");
    reveal_strlit("directml");
    reveal_strlit("directmlexecutionprovider");
    reveal_strlit("dml");
    reveal_strlit("openvino");
    reveal_strlit("openvinoexecutionprovider");
    reveal_strlit("rocm");
    reveal_strlit("rocmexecutionprovider");
    reveal_strlit("tensorrt");
    reveal_strlit("tensorrtexecutionprovider");
    lemma_lowercase_key("openvinoexecutionprovider"@);
    assert(codes("openvinoexecutionprovider"@).len() != codes("cpu"@).len());
    assert(codes("openvinoexecutionprovider"@).len() != codes("cpuep"@).len());
    assert(codes("openvinoexecutionprovider"@).len() != codes("cpuexecutionprovider"@).len());
    assert(codes("openvinoexecutionprovider"@).len() != codes("cuda"@).len());
    assert(codes("openvinoexecutionprovider"@).len() != codes("cudaprovider"@).len());
    assert(codes("openvinoexecutionprovider"@).len() != codes("cudagpuexecutionprovider"@).len());
    assert(codes("openvinoexecutionprovider"@).len() != codes("cudagpuep"@).len());
    assert(codes("openvinoexecutionprovider"@).len() != codes("coreml"@).len());
    assert(codes("openvinoexecutionprovider"@).len() != codes("coremlep"@).len());
    assert(codes("openvinoexecutionprovider"@).len() != codes("coremlexecutionprovider"@).len());
    assert(codes("openvinoexecutionprovider"@).len() != codes("core"@).len());
    assert(codes("openvinoexecutionprovider"@).len() != codes("openvino"@).len());
    assert(codes("openvinoexecutionprovider"@).len() != codes("tensorrt"@).len());
    lemma_codes_differ("openvinoexecutionprovider"@, "tensorrtexecutionprovider"@, 0);
    assert(codes("openvinoexecutionprovider"@).len() != codes("dml"@).len());
    assert(codes("openvinoexecutionprovider"@).len() != codes("directml"@).len());
    lemma_codes_differ("openvinoexecutionprovider"@, "directmlexecutionprovider"@, 0);
    assert(codes("openvinoexecutionprovider"@).len() != codes("rocm"@).len());
    assert(codes("openvinoexecutionprovider"@).len() != codes("rocmexecutionprovider"@).len());
}

proof fn lemma_alias_tensorrt()
    ensures
        canonical("tensorrt"@) == "TensorRTExecutionProvider"@,
{
    reveal_strlit("CPUExecutionProvider");
    reveal_strlit("CUDAExecutionProvider");
    reveal_strlit("CoreMLExecutionProvider");
    reveal_strlit("DmlExecutionProvider");
    reveal_strlit("OpenVINOExecutionProvider");
    reveal_strlit("RocmExecutionProvider");
    reveal_strlit("TensorRTExecutionProvider");
    reveal_strlit("core");
    reveal_strlit("coreml");
    reveal_strlit("coremlep");
    reveal_strlit("coremlexecutionprovider");
    reveal_strlit("cpu");
    reveal_strlit("cpuep");
    reveal_strlit("cpuexecutionprovider");
    reveal_strlit("cuda");
    reveal_strlit("cudagpuep");
    reveal_strlit("cudagpuexecutionprovider");
    reveal_strlit("cudaprovider");
    reveal_strlit("directml");
    reveal_strlit("directmlexecutionprovider");
    reveal_strlit("dml");
    reveal_strlit("openvino");
    reveal_strlit("openvinoexecutionprovider");
    reveal_strlit("rocm");
    reveal_strlit("rocmexecutionprovider");
    reveal_strlit("tensorrt");
    reveal_strlit("tensorrtexecutionprovider");
    lemma_lowercase_key("tensorrt"@);
    assert(codes("tensorrt"@).len() != codes("cpu"@).len());
    assert(codes("tensorrt"@).len() != codes("cpuep"@).len());
    assert(codes("tensorrt"@).len() != codes("cpuexecutionprovider"@).len());
    assert(codes("tensorrt"@).len() != codes("cuda"@).len());
    assert(codes("tensorrt"@).len() != codes("cudaprovider"@).len());
    assert(codes("tensorrt"@).len() != codes("cudagpuexecutionprovider"@).len());
    assert(codes("tensorrt"@).len() != codes("cudagpuep"@).len());
    assert(codes("tensorrt"@).len() != codes("coreml"@).len());
    lemma_codes_differ("tensorrt"@, "coremlep"@, 0);
    assert(codes("tensorrt"@).len() != codes("coremlexecutionprovider"@).len());
    assert(codes("tensorrt"@).len() != codes("core"@).len());
    lemma_codes_differ("tensorrt"@, "openvino"@, 0);
    assert(codes("tensorrt"@).len() != codes("openvinoexecutionprovider"@).len());
    assert(codes("tensorrt"@).len() != codes("tensorrtexecutionprovider"@).len());
    assert(codes("tensorrt"@).len() != codes("dml"@).len());
    lemma_codes_differ("tensorrt"@, "directml"@, 0);
    assert(codes("tensorrt"@).len() != codes("directmlexecutionprovider"@).len());
    assert(codes("tensorrt"@).len() != codes("rocm"@).len());
    assert(codes("tensorrt"@).len() != codes("rocmexecutionprovider"@).len());
}

proof fn lemma_alias_tensorrtexecutionprovider()
    ensures
        canonical("tensorrtexecutionprovider"@) == "TensorRTExecutionProvider"@,
{
    reveal_strlit("CPUExecutionProvider");
    reveal_strlit("CUDAExecutionProvider");
    reveal_strlit("CoreMLExecutionProvider");
    reveal_strlit("DmlExecutionProvider");
    reveal_strlit("OpenVINOExecutionProvider");
    reveal_strlit("RocmExecutionProvider");
    reveal_strlit("TensorRTExecutionProvider");
    reveal_strlit("core");
    reveal_strlit("coreml");
    reveal_strlit("coremlep");
    reveal_strlit("coremlexecutionprovider");
    reveal_strlit("cpu");
    reveal_strlit("cpuep");
    reveal_strlit("cpuexecutionprovider");
    reveal_strlit("cuda");
    reveal_strlit("cudagpuep");
    reveal_strlit("cudagpuexecutionprovider");
    reveal_strlit("cudaprovider");
    reveal_strlit("directml");
    reveal_strlit("directmlexecutionprovider");
    reveal_strlit("dml");
    reveal_strlit("openvino");
    reveal_strlit("openvinoexecutionprovider");
    reveal_strlit("rocm");
    reveal_strlit("rocmexecutionprovider");
    reveal_strlit("tensorrt");
    reveal_strlit("tensorrtexecutionprovider");
    lemma_lowercase_key("tensorrtexecutionprovider"@);
    assert(codes("tensorrtexecutionprovider"@).len() != codes("cpu"@).len());
    assert(codes("tensorrtexecutionprovider"@).len() != codes("cpuep"@).len());
    assert(codes("tensorrtexecutionprovider"@).len() != codes("cpuexecutionprovider"@).len());
    assert(codes("tensorrtexecutionprovider"@).len() != codes("cuda"@).len());
    assert(codes("tensorrtexecutionprovider"@).len() != codes("cudaprovider"@).len());
    assert(codes("tensorrtexecutionprovider"@).len() != codes("cudagpuexecutionprovider"@).len());
    assert(codes("tensorrtexecutionprovider"@).len() != codes("cudagpuep"@).len());
    assert(codes("tensorrtexecutionprovider"@).len() != codes("coreml"@).len());
    assert(codes("tensorrtexecutionprovider"@).len() != codes("coremlep"@).len());
    assert(codes("tensorrtexecutionprovider"@).len() != codes("coremlexecutionprovider"@).len());
    assert(codes("tensorrtexecutionprovider"@).len() != codes("core"@).len());
    assert(codes("tensorrtexecutionprovider"@).len() != codes("openvino"@).len());
    lemma_codes_differ("tensorrtexecutionprovider"@, "openvinoexecutionprovider"@, 0);
    assert(codes("tensorrtexecutionprovider"@).len() != codes("tensorrt"@).len());
    assert(codes("tensorrtexecutionprovider"@).len() != codes("dml"@).len());
    assert(codes("tensorrtexecutionprovider"@).len() != codes("directml"@).len());
    lemma_codes_differ("tensorrtexecutionprovider"@, "directmlexecutionprovider"@, 0);
    assert(codes("tensorrtexecutionprovider"@).len() != codes("rocm"@).len());
    assert(codes("tensorrtexecutionprovider"@).len() != codes("rocmexecutionprovider"@).len());
}

proof fn lemma_alias_dml()
    ensures
        canonical("dml"@) == "DmlExecutionProvider"@,
{
    reveal_strlit("CPUExecutionProvider");
    reveal_strlit("CUDAExecutionProvider");
    reveal_strlit("CoreMLExecutionProvider");
    reveal_strlit("DmlExecutionProvider");
    reveal_strlit("OpenVINOExecutionProvider");
    reveal_strlit("RocmExecutionProvider");
    reveal_strlit("TensorRTExecutionProvider");
    reveal_strlit("core");
    reveal_strlit("coreml");
    reveal_strlit("coremlep");
    reveal_strlit("coremlexecutionprovider");
    reveal_strlit("cpu");
    reveal_strlit("cpuep");
    reveal_strlit("cpuexecutionprovider");
    reveal_strlit("cuda");
    reveal_strlit("cudagpuep");
    reveal_strlit("cudagpuexecutionprovider");
    reveal_strlit("cudaprovider");
    reveal_strlit("directml");
    reveal_strlit("directmlexecutionprovider");
    reveal_strlit("dml");
    reveal_strlit("openvino");
    reveal_strlit("openvinoexecutionprovider");
    reveal_strlit("rocm");
    reveal_strlit("rocmexecutionprovider");
    reveal_strlit("tensorrt");
    reveal_strlit("tensorrtexecutionprovider");
    lemma_lowercase_key("dml"@);
    lemma_codes_differ("dml"@, "cpu"@, 0);
    assert(codes("dml"@).len() != codes("cpuep"@).len());
    assert(codes("dml"@).len() != codes("cpuexecutionprovider"@).len());
    assert(codes("dml"@).len() != codes("cuda"@).len());
    assert(codes("dml"@).len() != codes("cudaprovider"@).len());
    assert(codes("dml"@).len() != codes("cudagpuexecutionprovider"@).len());
    assert(codes("dml"@).len() != codes("cudagpuep"@).len());
    assert(codes("dml"@).len() != codes("coreml"@).len());
    assert(codes("dml"@).len() != codes("coremlep"@).len());
    assert(codes("dml"@).len() != codes("coremlexecutionprovider"@).len());
    assert(codes("dml"@).len() != codes("core"@).len());
    assert(codes("dml"@).len() != codes("openvino"@).len());
    assert(codes("dml"@).len() != codes("openvinoexecutionprovider"@).len());
    assert(codes("dml"@).len() != codes("tensorrt"@).len());
    assert(codes("dml"@).len() != codes("tensorrtexecutionprovider"@).len());
    assert(codes("dml"@).len() != codes("directml"@).len());
    assert(codes("dml"@).len() != codes("directmlexecutionprovider"@).len());
    assert(codes("dml"@).len() != codes("rocm"@).len());
    assert(codes("dml"@).len() != codes("rocmexecutionprovider"@).len());
}

proof fn lemma_alias_directml()
    ensures
        canonical("directml"@) == "DmlExecutionProvider"@,
{
    reveal_strlit("CPUExecutionProvider");
    reveal_strlit("CUDAExecutionProvider");
    reveal_strlit("CoreMLExecutionProvider");
    reveal_strlit("DmlExecutionProvider");
    reveal_strlit("OpenVINOExecutionProvider");
    reveal_strlit("RocmExecutionProvider");
    reveal_strlit("TensorRTExecutionProvider");
    reveal_strlit("core");
    reveal_strlit("coreml");
    reveal_strlit("coremlep");
    reveal_strlit("coremlexecutionprovider");
    reveal_strlit("cpu");
    reveal_strlit("cpuep");
    reveal_strlit("cpuexecutionprovider");
    reveal_strlit("cuda");
    reveal_strlit("cudagpuep");
    reveal_strlit("cudagpuexecutionprovider");
    reveal_strlit("cudaprovider");
    reveal_strlit("directml");
    reveal_strlit("directmlexecutionprovider");
    reveal_strlit("dml");
    reveal_strlit("openvino");
    reveal_strlit("openvinoexecutionprovider");
    reveal_strlit("rocm");
    reveal_strlit("rocmexecutionprovider");
    reveal_strlit("tensorrt");
    reveal_strlit("tensorrtexecutionprovider");
    lemma_lowercase_key("directml"@);
    assert(codes("directml"@).len() != codes("cpu"@).len());
    assert(codes("directml"@).len() != codes("cpuep"@).len());
    assert(codes("directml"@).len() != codes("cpuexecutionprovider"@).len());
    assert(codes("directml"@).len() != codes("cuda"@).len());
    assert(codes("directml"@).len() != codes("cudaprovider"@).len());
    assert(codes("directml"@).len() != codes("cudagpuexecutionprovider"@).len());
    assert(codes("directml"@).len() != codes("cudagpuep"@).len());
    assert(codes("directml"@).len() != codes("coreml"@).len());
    lemma_codes_differ("directml"@, "coremlep"@, 0);
    assert(codes("directml"@).len() != codes("coremlexecutionprovider"@).len());
    assert(codes("directml"@).len() != codes("core"@).len());
    lemma_codes_differ("directml"@, "openvino"@, 0);
    assert(codes("directml"@).len() != codes("openvinoexecutionprovider"@).len());
    lemma_codes_differ("directml"@, "tensorrt"@, 0);
    assert(codes("directml"@).len() != codes("tensorrtexecutionprovider"@).len());
    assert(codes("directml"@).len() != codes("dml"@).len());
    assert(codes("directml"@).len() != codes("directmlexecutionprovider"@).len());
    assert(codes("directml"@).len() != codes("rocm"@).len());
    assert(codes("directml"@).len() != codes("rocmexecutionprovider"@).len());
}

proof fn lemma_alias_directmlexecutionprovider()
    ensures
        canonical("directmlexecutionprovider"@) == "DmlExecutionProvider"@,
{
    reveal_strlit("CPUExecutionProvider");
    reveal_strlit("CUDAExecutionProvider");
    reveal_strlit("CoreMLExecutionProvider");
    reveal_strlit("DmlExecutionProvider");
    reveal_strlit("OpenVINOExecutionProvider");
    reveal_strlit("RocmExecutionProvider");
    reveal_strlit("TensorRTExecutionProvider");
    reveal_strlit("core");
    reveal_strlit("coreml");
    reveal_strlit("coremlep");
    reveal_strlit("coremlexecutionprovider");
    reveal_strlit("cpu");
    reveal_strlit("cpuep");
    reveal_strlit("cpuexecutionprovider");
    reveal_strlit("cuda");
    reveal_strlit("cudagpuep");
    reveal_strlit("cudagpuexecutionprovider");
    reveal_strlit("cudaprovider");
    reveal_strlit("directml");
    reveal_strlit("directmlexecutionprovider");
    reveal_strlit("dml");
    reveal_strlit("openvino");
    reveal_strlit("openvinoexecutionprovider");
    reveal_strlit("rocm");
    reveal_strlit("rocmexecutionprovider");
    reveal_strlit("tensorrt");
    reveal_strlit("tensorrtexecutionprovider");
    lemma_lowercase_key("directmlexecutionprovider"@);
    assert(codes("directmlexecutionprovider"@).len() != codes("cpu"@).len());
    assert(codes("directmlexecutionprovider"@).len() != codes("cpuep"@).len());
    assert(codes("directmlexecutionprovider"@).len() != codes("cpuexecutionprovider"@).len());
    assert(codes("directmlexecutionprovider"@).len() != codes("cuda"@).len());
    assert(codes("directmlexecutionprovider"@).len() != codes("cudaprovider"@).len());
    assert(codes("directmlexecutionprovider"@).len() != codes("cudagpuexecutionprovider"@).len());
    assert(codes("directmlexecutionprovider"@).len() != codes("cudagpuep"@).len());
    assert(codes("directmlexecutionprovider"@).len() != codes("coreml"@).len());
    assert(codes("directmlexecutionprovider"@).len() != codes("coremlep"@).len());
    assert(codes("directmlexecutionprovider"@).len() != codes("coremlexecutionprovider"@).len());
    assert(codes("directmlexecutionprovider"@).len() != codes("core"@).len());
    assert(codes("directmlexecutionprovider"@).len() != codes("openvino"@).len());
    lemma_codes_differ("directmlexecutionprovider"@, "openvinoexecutionprovider"@, 0);
    assert(codes("directmlexecutionprovider"@).len() != codes("tensorrt"@).len());
    lemma_codes_differ("directmlexecutionprovider"@, "tensorrtexecutionprovider"@, 0);
    assert(codes("directmlexecutionprovider"@).len() != codes("dml"@).len());
    assert(codes("directmlexecutionprovider"@).len() != codes("directml"@).len());
    assert(codes("directmlexecutionprovider"@).len() != codes("rocm"@).len());
    assert(codes("directmlexecutionprovider"@).len() != codes("rocmexecutionprovider"@).len());
}

proof fn lemma_alias_rocm()
    ensures
        canonical("rocm"@) == "RocmExecutionProvider"@,
{
    reveal_strlit("CPUExecutionProvider");
    reveal_strlit("CUDAExecutionProvider");
    reveal_strlit("CoreMLExecutionProvider");
    reveal_strlit("DmlExecutionProvider");
    reveal_strlit("OpenVINOExecutionProvider");
    reveal_strlit("RocmExecutionProvider");
    reveal_strlit("TensorRTExecutionProvider");
    reveal_strlit("core");
    reveal_strlit("coreml");
    reveal_strlit("coremlep");
    reveal_strlit("coremlexecutionprovider");
    reveal_strlit("cpu");
    reveal_strlit("cpuep");
    reveal_strlit("cpuexecutionprovider");
    reveal_strlit("cuda");
    reveal_strlit("cudagpuep");
    reveal_strlit("cudagpuexecutionprovider");
    reveal_strlit("cudaprovider");
    reveal_strlit("directml");
    reveal_strlit("directmlexecutionprovider");
    reveal_strlit("dml");
    reveal_strlit("openvino");
    reveal_strlit("openvinoexecutionprovider");
    reveal_strlit("rocm");
    reveal_strlit("rocmexecutionprovider");
    reveal_strlit("tensorrt");
    reveal_strlit("tensorrtexecutionprovider");
    lemma_lowercase_key("rocm"@);
    assert(codes("rocm"@).len() != codes("cpu"@).len());
    assert(codes("rocm"@).len() != codes("cpuep"@).len());
    assert(codes("rocm"@).len() != codes("cpuexecutionprovider"@).len());
    lemma_codes_differ("rocm"@, "cuda"@, 0);
    assert(codes("rocm"@).len() != codes("cudaprovider"@).len());
    assert(codes("rocm"@).len() != codes("cudagpuexecutionprovider"@).len());
    assert(codes("rocm"@).len() != codes("cudagpuep"@).len());
    assert(codes("rocm"@).len() != codes("coreml"@).len());
    assert(codes("rocm"@).len() != codes("coremlep"@).len());
    assert(codes("rocm"@).len() != codes("coremlexecutionprovider"@).len());
    lemma_codes_differ("rocm"@, "core"@, 0);
    assert(codes("rocm"@).len() != codes("openvino"@).len());
    assert(codes("rocm"@).len() != codes("openvinoexecutionprovider"@).len());
    assert(codes("rocm"@).len() != codes("tensorrt"@).len());
    assert(codes("rocm"@).len() != codes("tensorrtexecutionprovider"@).len());
    assert(codes("rocm"@).len() != codes("dml"@).len());
    assert(codes("rocm"@).len() != codes("directml"@).len());
    assert(codes("rocm"@).len() != codes("directmlexecutionprovider"@).len());
    assert(codes("rocm"@).len() != codes("rocmexecutionprovider"@).len());
}

proof fn lemma_alias_rocmexecutionprovider()
    ensures
        canonical("rocmexecutionprovider"@) == "RocmExecutionProvider"@,
{
    reveal_strlit("CPUExecutionProvider");
    reveal_strlit("CUDAExecutionProvider");
    reveal_strlit("CoreMLExecutionProvider");
    reveal_strlit("DmlExecutionProvider");
    reveal_strlit("OpenVINOExecutionProvider");
    reveal_strlit("RocmExecutionProvider");
    reveal_strlit("TensorRTExecutionProvider");
    reveal_strlit("core");
    reveal_strlit("coreml");
    reveal_strlit("coremlep");
    reveal_strlit("coremlexecutionprovider");
    reveal_strlit("cpu");
    reveal_strlit("cpuep");
    reveal_strlit("cpuexecutionprovider");
    reveal_strlit("cuda");
    reveal_strlit("cudagpuep");
    reveal_strlit("cudagpuexecutionprovider");
    reveal_strlit("cudaprovider");
    reveal_strlit("directml");
    reveal_strlit("directmlexecutionprovider");
    reveal_strlit("dml");
    reveal_strlit("openvino");
    reveal_strlit("openvinoexecutionprovider");
    reveal_strlit("rocm");
    reveal_strlit("rocmexecutionprovider");
    reveal_strlit("tensorrt");
    reveal_strlit("tensorrtexecutionprovider");
    lemma_lowercase_key("rocmexecutionprovider"@);
    assert(codes("rocmexecutionprovider"@).len() != codes("cpu"@).len());
    assert(codes("rocmexecutionprovider"@).len() != codes("cpuep"@).len());
    assert(codes("rocmexecutionprovider"@).len() != codes("cpuexecutionprovider"@).len());
    assert(codes("rocmexecutionprovider"@).len() != codes("cuda"@).len());
    assert(codes("rocmexecutionprovider"@).len() != codes("cudaprovider"@).len());
    assert(codes("rocmexecutionprovider"@).len() != codes("cudagpuexecutionprovider"@).len());
    assert(codes("rocmexecutionprovider"@).len() != codes("cudagpuep"@).len());
    assert(codes("rocmexecutionprovider"@).len() != codes("coreml"@).len());
    assert(codes("rocmexecutionprovider"@).len() != codes("coremlep"@).len());
    assert(codes("rocmexecutionprovider"@).len() != codes("coremlexecutionprovider"@).len());
    assert(codes("rocmexecutionprovider"@).len() != codes("core"@).len());
    assert(codes("rocmexecutionprovider"@).len() != codes("openvino"@).len());
    assert(codes("rocmexecutionprovider"@).len() != codes("openvinoexecutionprovider"@).len());
    assert(codes("rocmexecutionprovider"@).len() != codes("tensorrt"@).len());
    assert(codes("rocmexecutionprovider"@).len() != codes("tensorrtexecutionprovider"@).len());
    assert(codes("rocmexecutionprovider"@).len() != codes("dml"@).len());
    assert(codes("rocmexecutionprovider"@).len() != codes("directml"@).len());
    assert(codes("rocmexecutionprovider"@).len() != codes("directmlexecutionprovider"@).len());
    assert(codes("rocmexecutionprovider"@).len() != codes("rocm"@).len());
}

/// Every alias in the provider table names its provider, whatever the case
/// and punctuation: `canonical` of each alias is the provider's standard name.
pub proof fn law_provider_aliases()
    ensures
        canonical("cpu"@) == "CPUExecutionProvider"@,
        canonical("cpuep"@) == "CPUExecutionProvider"@,
        canonical("cpuexecutionprovider"@) == "CPUExecutionProvider"@,
        canonical("cuda"@) == "CUDAExecutionProvider"@,
        canonical("cudaprovider"@) == "CUDAExecutionProvider"@,
        canonical("cudagpuexecutionprovider"@) == "CUDAExecutionProvider"@,
        canonical("cudagpuep"@) == "CUDAExecutionProvider"@,
        canonical("coreml"@) == "CoreMLExecutionProvider"@,
        canonical("coremlep"@) == "CoreMLExecutionProvider"@,
        canonical("coremlexecutionprovider"@) == "CoreMLExecutionProvider"@,
        canonical("core"@) == "CoreMLExecutionProvider"@,
        canonical("openvino"@) == "OpenVINOExecutionProvider"@,
        canonical("openvinoexecutionprovider"@) == "OpenVINOExecutionProvider"@,
        canonical("tensorrt"@) == "TensorRTExecutionProvider"@,
        canonical("tensorrtexecutionprovider"@) == "TensorRTExecutionProvider"@,
        canonical("dml"@) == "DmlExecutionProvider"@,
        canonical("directml"@) == "DmlExecutionProvider"@,
        canonical("directmlexecutionprovider"@) == "DmlExecutionProvider"@,
        canonical("rocm"@) == "RocmExecutionProvider"@,
        canonical("rocmexecutionprovider"@) == "RocmExecutionProvider"@,
{
    lemma_alias_cpu();
    lemma_alias_cpuep();
    lemma_alias_cpuexecutionprovider();
    lemma_alias_cuda();
    lemma_alias_cudaprovider();
    lemma_alias_cudagpuexecutionprovider();
    lemma_alias_cudagpuep();
    lemma_alias_coreml();
    lemma_alias_coremlep();
    lemma_alias_coremlexecutionprovider();
    lemma_alias_core();
    lemma_alias_openvino();
    lemma_alias_openvinoexecutionprovider();
    lemma_alias_tensorrt();
    lemma_alias_tensorrtexecutionprovider();
    lemma_alias_dml();
    lemma_alias_directml();
    lemma_alias_directmlexecutionprovider();
    lemma_alias_rocm();
    lemma_alias_rocmexecutionprovider();
}

/// No entry of `chain` before position `j` is offered by `available`.
pub open spec fn none_offered_before(chain: Seq<String>, available: Seq<Seq<char>>, j: int) -> bool {
    forall|k: int| 0 <= k < j ==> !available.contains(canonical(#[trigger] chain[k]@))
}

/// The fallback chosen from a chain is its earliest entry whose canonical name
/// is offered: it is offered, and no entry before it is. When none is chosen,
/// no entry of the chain is offered.
pub proof fn law_fallback_is_first_offered(chain: Seq<String>, available: Seq<Seq<char>>)
    ensures
        match first_fallback(chain, available) {
            Some(f) => exists|j: int|
                0 <= j < chain.len() && #[trigger] chain[j]@ == f && available.contains(
                    canonical(f),
                ) && none_offered_before(chain, available, j),
            None => none_offered_before(chain, available, chain.len() as int),
        },
    decreases chain.len(),
{
    if chain.len() > 0 {
        let rest = chain.drop_first();
        law_fallback_is_first_offered(rest, available);
        if available.contains(canonical(chain[0]@)) {
            assert(chain[0]@ == chain[0]@);
            assert(none_offered_before(chain, available, 0));
        } else {
            match first_fallback(rest, available) {
                Some(f) => {
                    let j = choose|j: int|
                        0 <= j < rest.len() && #[trigger] rest[j]@ == f && available.contains(
                            canonical(f),
                        ) && none_offered_before(rest, available, j);
                    assert(chain[j + 1] == rest[j]);
                    assert forall|k: int| 0 <= k < j + 1 implies !available.contains(
                        canonical(#[trigger] chain[k]@),
                    ) by {
                        if k > 0 {
                            assert(chain[k] == rest[k - 1]);
                        }
                    }
                },
                None => {
                    assert forall|k: int| 0 <= k < chain.len() implies !available.contains(
                        canonical(#[trigger] chain[k]@),
                    ) by {
                        if k > 0 {
                            assert(chain[k] == rest[k - 1]);
                        }
                    }
                },
            }
        }
    }
}

/// When the requested provider is missing, a fixture probe reports as its
/// fallback the canonical name of the earliest fallback-chain entry that the
/// host offers, and reports no fallback exactly when no entry is offered.
pub proof fn law_probe_reports_first_offered_fallback(
    request: Seq<char>,
    request_quoted: Seq<char>,
    fixture: FixtureProbeState,
)
    ensures
        ({
            let v = fixture_view(request, request_quoted, fixture);
            let available = canonical_all(fixture.available_providers@);
            let chain = fixture.fallback_chain@;
            &&& v.status == ProviderProbeStatus::RequestedProviderUnavailableWithFallback
                ==> exists|j: int|
                0 <= j < chain.len() && v.assignments[0].observed_provider == Some(
                    canonical(#[trigger] chain[j]@),
                ) && available.contains(canonical(chain[j]@)) && none_offered_before(
                    chain,
                    available,
                    j,
                )
            &&& (available.len() > 0 && !available.contains(canonical(request))
                && v.status == ProviderProbeStatus::RequestedProviderUnavailableNoFallback)
                ==> none_offered_before(chain, available, chain.len() as int)
        }),
{
    let available = canonical_all(fixture.available_providers@);
    let chain = fixture.fallback_chain@;
    law_fallback_is_first_offered(chain, available);
    law_probe_status_meaning(request, request_quoted, fixture);
    let v = fixture_view(request, request_quoted, fixture);
    if v.status == ProviderProbeStatus::RequestedProviderUnavailableWithFallback {
        let f = first_fallback(chain, available)->Some_0;
        let j = choose|j: int|
            0 <= j < chain.len() && #[trigger] chain[j]@ == f && available.contains(canonical(f))
                && none_offered_before(chain, available, j);
        assert(v.assignments[0].observed_provider == Some(canonical(chain[j]@)));
    }
}

/// The position of the first character of `s` that is not whitespace, or
/// its length when there is none.
pub open spec fn text_start(s: Seq<char>) -> int
    decreases s.len(),
{
    if s.len() > 0 && is_white_space(s[0]) {
        1 + text_start(s.drop_first())
    } else {
        0
    }
}

proof fn lemma_text_start(s: Seq<char>)
    ensures
        0 <= text_start(s) <= s.len(),
        forall|j: int| 0 <= j < text_start(s) ==> is_white_space(#[trigger] s[j]),
        text_start(s) == s.len() || !is_white_space(s[text_start(s)]),
    decreases s.len(),
{
    if s.len() > 0 && is_white_space(s[0]) {
        let t = s.drop_first();
        lemma_text_start(t);
        assert forall|j: int| 0 <= j < text_start(s) implies is_white_space(#[trigger] s[j]) by {
            if j > 0 {
                assert(s[j] == t[j - 1]);
            }
        }
        if text_start(s) < s.len() {
            assert(s[text_start(s)] == t[text_start(t)]);
        }
    }
}

/// Trimming removes exactly the surrounding whitespace: the result is the
/// part of the text between its leading and its trailing whitespace, and it
/// neither starts nor ends with whitespace. Spaces, tabs, line breaks and
/// no-break spaces count as whitespace.
pub proof fn law_trim_strips_surrounding_whitespace(s: Seq<char>)
    ensures
        exists|a: int, b: int|
            #![trigger s.subrange(a, b)]
            0 <= a <= b <= s.len() && trim(s) == s.subrange(a, b) && (forall|j: int|
                0 <= j < a ==> is_white_space(#[trigger] s[j])) && (forall|j: int|
                b <= j < s.len() ==> is_white_space(#[trigger] s[j])) && (a < b ==> !is_white_space(
                s[a]) && !is_white_space(s[b - 1])),
        is_white_space(' ') && is_white_space('\t') && is_white_space('\n') && is_white_space(
            '\r',
        ) && is_white_space('\u{a0}'),
        !is_white_space('a') && !is_white_space('0') && !is_white_space('_'),
{
    lemma_text_start(s);
    let a = text_start(s);
    lemma_trim_front_from(s, a);
    let f = s.subrange(a, s.len() as int);
    let rev = Seq::new(f.len(), |i: int| f[f.len() - 1 - i]);
    lemma_text_start(rev);
    let k = text_start(rev);
    let b = f.len() - k;
    assert forall|j: int| b <= j < f.len() implies is_white_space(#[trigger] f[j]) by {
        assert(f[j] == rev[f.len() - 1 - j]);
    }
    if b > 0 {
        assert(f[b - 1] == rev[k]);
    }
    lemma_trim_back_to(f, b);
    assert(f.subrange(0, b) =~= s.subrange(a, a + b));
    assert forall|j: int| a + b <= j < s.len() implies is_white_space(#[trigger] s[j]) by {
        assert(s[j] == f[j - a]);
    }
    if b > 0 {
        assert(s[a] == f[0]);
        assert(s[a + b - 1] == f[b - 1]);
    }
    assert(s.subrange(a, a + b) == s.subrange(a, a + b));
}

} // verus!
