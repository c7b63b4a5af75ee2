//! The tree verifier: walks the declared dependency tree against what was
//! observed on disk and collects every discrepancy.
//!
//! The filesystem itself stays outside this crate. A caller probes the
//! descriptor file of each declared package and hands the outcomes over as
//! an `ObservedNode` tree that mirrors the declared tree; children of a
//! node are only consulted (and only need to be present) where the walk
//! descends, which it does exactly when the node's descriptor was read and
//! parsed. Every failure mode — missing install, unreadable descriptor,
//! malformed descriptor, version mismatch — becomes a `Discrepancy`; none
//! aborts the walk, and a version mismatch still descends into children.

use vstd::prelude::*;
use vstd::string::StringExecFns;

use crate::errors::VerifyNodeModulesError;
use crate::errors::error_message;
use crate::manifest::ParseErrorModel;
use crate::manifest::installed_version_of;
use crate::manifest::parse_error_text;
use crate::manifest::parse_error_view;
use crate::manifest::parse_installed_descriptor;
use crate::npm_types::PackageLockDependency;
use crate::npm_types::PackageLockJSONRoot;
use crate::npm_types::declared_count;
use crate::npm_types::declared_count_seq;

verus! {

/// What probing one declared package's descriptor file found: no file at
/// all, a file that could not be read (with the reader's diagnostic), or
/// the file's text.
#[derive(Debug)]
pub enum ProbeOutcome {
    Missing,
    OpenFailed(String),
    Content(String),
}

/// The probe outcomes for one declared subtree. `children` mirrors the
/// declared children in order; it is consulted only where the walk
/// descends.
#[derive(Debug)]
pub struct ObservedNode {
    pub probe: ProbeOutcome,
    pub children: Vec<ObservedNode>,
}

/// One reported deviation: the package, the version the lockfile pins,
/// and what was actually found (a real version string, or a sentinel for
/// a missing or unreadable install).
#[derive(Debug)]
pub struct Discrepancy {
    pub package_name: String,
    pub expected_version: String,
    pub actual_version: String,
}

/// The mathematical image of a `Discrepancy`.
pub struct DiscrepancyModel {
    pub package_name: Seq<char>,
    pub expected_version: Seq<char>,
    pub actual_version: Seq<char>,
}

impl View for Discrepancy {
    type V = DiscrepancyModel;

    open spec fn view(&self) -> DiscrepancyModel {
        DiscrepancyModel {
            package_name: self.package_name@,
            expected_version: self.expected_version@,
            actual_version: self.actual_version@,
        }
    }
}

pub open spec fn discs_view(s: Seq<Discrepancy>) -> Seq<DiscrepancyModel> {
    s.map_values(|d: Discrepancy| d@)
}

/// What one verification run reports: the discrepancies in walk order and
/// how many declared nodes were visited (clamped at the counter's range).
#[derive(Debug)]
pub struct VerificationResult {
    pub discrepancies: Vec<Discrepancy>,
    pub visited: u64,
}

/// The sentinel reported for a package with no installed descriptor file.
pub open spec fn missing_sentinel() -> Seq<char> {
    "None"@
}

/// The sentinel reported when the descriptor could not be used, wrapping
/// the diagnostic.
pub open spec fn unknown_sentinel(diag: Seq<char>) -> Seq<char> {
    "Unknown ("@ + diag + ")"@
}

/// The diagnostic for a descriptor file that could not be read.
pub open spec fn open_failure_text(t: Seq<char>) -> Seq<char> {
    "Could not open package.json: "@ + t
}

/// The diagnostic for a descriptor file that could not be parsed.
pub open spec fn parse_failure_text(t: Seq<char>) -> Seq<char> {
    "Could not parse package.json: "@ + t
}

/// Whether the walk descends into the node's children: it does exactly
/// when the descriptor file was read and parsed, whether or not the
/// version matched.
pub open spec fn probe_descends(p: ProbeOutcome) -> bool {
    match p {
        ProbeOutcome::Content(text) => installed_version_of(text@) is Ok,
        _ => false,
    }
}

/// The `actual_version` reported at one node, if the node reports at all:
/// a matching version reports nothing, everything else reports exactly
/// once.
pub open spec fn node_actual(expected: Seq<char>, p: ProbeOutcome) -> Option<Seq<char>> {
    match p {
        ProbeOutcome::Missing => Some(missing_sentinel()),
        ProbeOutcome::OpenFailed(t) => Some(unknown_sentinel(open_failure_text(t@))),
        ProbeOutcome::Content(text) => match installed_version_of(text@) {
            Err(e) => Some(unknown_sentinel(parse_failure_text(parse_error_text(e)))),
            Ok(actual) => if actual == expected {
                None
            } else {
                Some(actual)
            },
        },
    }
}

/// The discrepancies reported for the subtree declared at one node: the
/// node's own (zero or one), then its children's, child by child in
/// declared order.
pub open spec fn spec_node_discs(
    name: Seq<char>,
    d: PackageLockDependency,
    o: ObservedNode,
) -> Seq<DiscrepancyModel>
    decreases d,
{
    let own = match node_actual(d.version@, o.probe) {
        Some(actual) => seq![
            DiscrepancyModel {
                package_name: name,
                expected_version: d.version@,
                actual_version: actual,
            },
        ],
        None => Seq::empty(),
    };
    if probe_descends(o.probe) {
        match d.dependencies {
            Some(deps) => own + spec_children_discs(deps@, o.children@),
            None => own,
        }
    } else {
        own
    }
}

/// The discrepancies of a declared forest, in order.
pub open spec fn spec_children_discs(
    ds: Seq<(String, PackageLockDependency)>,
    os: Seq<ObservedNode>,
) -> Seq<DiscrepancyModel>
    decreases ds,
{
    if ds.len() == 0 {
        Seq::empty()
    } else {
        spec_children_discs(ds.drop_last(), os.drop_last()) + spec_node_discs(
            ds[ds.len() - 1].0@,
            ds[ds.len() - 1].1,
            os[os.len() - 1],
        )
    }
}

/// How many nodes the walk visits in the subtree declared at one node:
/// the node itself, plus its children's subtrees where it descends.
pub open spec fn spec_node_visited(d: PackageLockDependency, o: ObservedNode) -> nat
    decreases d,
{
    if probe_descends(o.probe) {
        match d.dependencies {
            Some(deps) => 1 + spec_children_visited(deps@, o.children@),
            None => 1,
        }
    } else {
        1
    }
}

/// How many nodes the walk visits in a declared forest.
pub open spec fn spec_children_visited(
    ds: Seq<(String, PackageLockDependency)>,
    os: Seq<ObservedNode>,
) -> nat
    decreases ds,
{
    if ds.len() == 0 {
        0
    } else {
        spec_children_visited(ds.drop_last(), os.drop_last()) + spec_node_visited(
            ds[ds.len() - 1].1,
            os[os.len() - 1],
        )
    }
}

/// The observations cover the declared tree: wherever the walk descends,
/// there is one observation per declared child, recursively.
pub open spec fn observed_covers(d: PackageLockDependency, o: ObservedNode) -> bool
    decreases d,
{
    probe_descends(o.probe) ==> match d.dependencies {
        Some(deps) => o.children@.len() == deps@.len() && (forall|i: int|
            0 <= i < deps@.len() ==> observed_covers((#[trigger] deps@[i]).1, o.children@[i])),
        None => true,
    }
}

/// The observations cover a declared forest.
pub open spec fn forest_covers(
    ds: Seq<(String, PackageLockDependency)>,
    os: Seq<ObservedNode>,
) -> bool {
    os.len() == ds.len() && (forall|i: int|
        0 <= i < ds.len() ==> observed_covers((#[trigger] ds[i]).1, os[i]))
}

/// `n` clamped into the visited counter's range.
pub open spec fn clamp_u64(n: nat) -> u64 {
    if n <= u64::MAX {
        n as u64
    } else {
        u64::MAX
    }
}

/// Addition that clamps instead of overflowing.
fn saturating_add_u64(a: u64, b: u64) -> (r: u64)
    ensures
        r == clamp_u64((a + b) as nat),
{
    if b <= u64::MAX - a {
        a + b
    } else {
        u64::MAX
    }
}

/// The sentinel reported for an unusable descriptor: `Unknown (` around
/// the diagnostic, as the report embeds it.
fn unknown_actual(diag: String) -> (r: String)
    ensures
        r@ == unknown_sentinel(diag@),
{
    let mut s = "Unknown (".to_owned();
    s.append(diag.as_str());
    s.append(")");
    proof {
        assert(s@ =~= unknown_sentinel(diag@));
    }
    s
}

/// Verify the subtree declared at one node against its observations.
///
/// Reports the node's own discrepancy (if any) followed by its children's,
/// and counts every visited node; a missing or unusable descriptor is
/// terminal for its branch, a version mismatch is not.
pub fn verify_node(
    package_name: &String,
    declared: &PackageLockDependency,
    observed: &ObservedNode,
) -> (r: VerificationResult)
    requires
        observed_covers(*declared, *observed),
    ensures
        discs_view(r.discrepancies@) == spec_node_discs(package_name@, *declared, *observed),
        r.visited == clamp_u64(spec_node_visited(*declared, *observed)),
    decreases *declared,
{
    let mut discrepancies: Vec<Discrepancy> = Vec::new();
    let mut visited: u64 = 1;
    let mut descend = false;
    match &observed.probe {
        ProbeOutcome::Missing => {
            discrepancies.push(
                Discrepancy {
                    package_name: package_name.clone(),
                    expected_version: declared.version.clone(),
                    actual_version: "None".to_owned(),
                },
            );
        },
        ProbeOutcome::OpenFailed(t) => {
            let err = VerifyNodeModulesError::CouldNotOpenPackageJson(t.clone());
            let actual = unknown_actual(err.message());
            proof {
                assert(actual@ =~= unknown_sentinel(open_failure_text(t@)));
            }
            discrepancies.push(
                Discrepancy {
                    package_name: package_name.clone(),
                    expected_version: declared.version.clone(),
                    actual_version: actual,
                },
            );
        },
        ProbeOutcome::Content(text) => {
            match parse_installed_descriptor(text.as_str()) {
                Err(pe) => {
                    let err = VerifyNodeModulesError::CouldNotParsePackageJson(pe.message());
                    let actual = unknown_actual(err.message());
                    proof {
                        assert(actual@ =~= unknown_sentinel(
                            parse_failure_text(parse_error_text(parse_error_view(pe))),
                        ));
                    }
                    discrepancies.push(
                        Discrepancy {
                            package_name: package_name.clone(),
                            expected_version: declared.version.clone(),
                            actual_version: actual,
                        },
                    );
                },
                Ok(pkg) => {
                    descend = true;
                    if !(pkg.version == declared.version) {
                        discrepancies.push(
                            Discrepancy {
                                package_name: package_name.clone(),
                                expected_version: declared.version.clone(),
                                actual_version: pkg.version,
                            },
                        );
                    }
                },
            }
        },
    }
    let ghost own = discs_view(discrepancies@);
    assert(own == match node_actual(declared.version@, observed.probe) {
        Some(actual) => seq![
            DiscrepancyModel {
                package_name: package_name@,
                expected_version: declared.version@,
                actual_version: actual,
            },
        ],
        None => Seq::<DiscrepancyModel>::empty(),
    });
    assert(descend == probe_descends(observed.probe));
    if descend {
        match &declared.dependencies {
            None => {},
            Some(deps) => {
                let ghost ds = deps@;
                let ghost os = observed.children@;
                let n = deps.len();
                let mut i: usize = 0;
                while i < n
                    invariant
                        i <= n,
                        n == ds.len(),
                        os.len() == ds.len(),
                        deps@ == ds,
                        declared.dependencies == Some(*deps),
                        observed.children@ == os,
                        forall|m: int|
                            0 <= m < ds.len() ==> observed_covers(
                                (#[trigger] ds[m]).1,
                                os[m],
                            ),
                        own == discs_view(discrepancies@).take(own.len() as int),
                        discs_view(discrepancies@) == own + spec_children_discs(
                            ds.take(i as int),
                            os.take(i as int),
                        ),
                        visited == clamp_u64(
                            (1 + spec_children_visited(ds.take(i as int), os.take(i as int)))
                                as nat,
                        ),
                    decreases n - i,
                {
                    proof {
                        assert(declared.dependencies == Some(*deps));
                        assert(decreases_to!(*declared => declared.dependencies));
                        assert(*deps == declared.dependencies->0);
                        assert(decreases_to!(declared.dependencies => declared.dependencies->0));
                        assert(decreases_to!(*deps => deps@));
                        assert(decreases_to!(deps@ => deps@[i as int]));
                        assert(decreases_to!(deps@[i as int] => deps@[i as int].1));
                    }
                    let mut child = verify_node(&deps[i].0, &deps[i].1, &observed.children[i]);
                    proof {
                        assert(ds.take(i + 1).drop_last() =~= ds.take(i as int));
                        assert(os.take(i + 1).drop_last() =~= os.take(i as int));
                        assert(ds.take(i + 1)[ds.take(i + 1).len() - 1] == ds[i as int]);
                        assert(os.take(i + 1)[os.take(i + 1).len() - 1] == os[i as int]);
                    }
                    let ghost before = discrepancies@;
                    let ghost child_discs = child.discrepancies@;
                    discrepancies.append(&mut child.discrepancies);
                    proof {
                        assert(discs_view(discrepancies@) =~= discs_view(before) + discs_view(
                            child_discs,
                        ));
                    }
                    visited = saturating_add_u64(visited, child.visited);
                    i = i + 1;
                    proof {
                        assert(discs_view(discrepancies@) =~= own + spec_children_discs(
                            ds.take(i as int),
                            os.take(i as int),
                        ));
                        assert(own =~= discs_view(discrepancies@).take(own.len() as int));
                    }
                }
                proof {
                    assert(ds.take(n as int) =~= ds);
                    assert(os.take(n as int) =~= os);
                }
            },
        }
    }
    proof {
        assert(discs_view(discrepancies@) =~= spec_node_discs(
            package_name@,
            *declared,
            *observed,
        ));
    }
    VerificationResult { discrepancies, visited }
}

/// Whether the walk will descend below a node with this probe outcome.
/// A caller probing the filesystem needs this to know which children to
/// probe at all: below a missing or unusable descriptor none are.
pub fn descend_after(probe: &ProbeOutcome) -> (r: bool)
    ensures
        r == probe_descends(*probe),
{
    match probe {
        ProbeOutcome::Content(text) => parse_installed_descriptor(text.as_str()).is_ok(),
        _ => false,
    }
}

/// Whether the observations cover the declared tree, as `verify_node`
/// requires.
pub fn observation_covers(declared: &PackageLockDependency, observed: &ObservedNode) -> (r: bool)
    ensures
        r == observed_covers(*declared, *observed),
    decreases *declared,
{
    if !descend_after(&observed.probe) {
        return true;
    }
    match &declared.dependencies {
        None => true,
        Some(deps) => {
            let n = deps.len();
            if observed.children.len() != n {
                return false;
            }
            let mut i: usize = 0;
            while i < n
                invariant
                    i <= n,
                    n == deps@.len(),
                    declared.dependencies == Some(*deps),
                    probe_descends(observed.probe),
                    observed.children@.len() == n,
                    forall|m: int|
                        0 <= m < i ==> observed_covers(
                            (#[trigger] deps@[m]).1,
                            observed.children@[m],
                        ),
                decreases n - i,
            {
                proof {
                    assert(*deps == declared.dependencies->0);
                    assert(decreases_to!(*declared => declared.dependencies));
                    assert(decreases_to!(declared.dependencies => declared.dependencies->0));
                    assert(decreases_to!(*deps => deps@));
                    assert(decreases_to!(deps@ => deps@[i as int]));
                    assert(decreases_to!(deps@[i as int] => deps@[i as int].1));
                }
                if !observation_covers(&deps[i].1, &observed.children[i]) {
                    return false;
                }
                i = i + 1;
            }
            true
        },
    }
}

/// Verify every top-level declared dependency against its observations
/// and merge the results: all discrepancies in declared order, and the
/// total number of nodes visited.
pub fn verify_tree(root: &PackageLockJSONRoot, observed: &Vec<ObservedNode>) -> (r:
    VerificationResult)
    requires
        forest_covers(root.dependencies@, observed@),
    ensures
        discs_view(r.discrepancies@) == spec_children_discs(root.dependencies@, observed@),
        r.visited == clamp_u64(spec_children_visited(root.dependencies@, observed@)),
{
    let ghost ds = root.dependencies@;
    let ghost os = observed@;
    let mut discrepancies: Vec<Discrepancy> = Vec::new();
    let mut visited: u64 = 0;
    let n = root.dependencies.len();
    let mut i: usize = 0;
    while i < n
        invariant
            i <= n,
            n == ds.len(),
            os.len() == ds.len(),
            root.dependencies@ == ds,
            observed@ == os,
            forall|m: int| 0 <= m < ds.len() ==> observed_covers((#[trigger] ds[m]).1, os[m]),
            discs_view(discrepancies@) == spec_children_discs(
                ds.take(i as int),
                os.take(i as int),
            ),
            visited == clamp_u64(spec_children_visited(ds.take(i as int), os.take(i as int))),
        decreases n - i,
    {
        let mut child = verify_node(
            &root.dependencies[i].0,
            &root.dependencies[i].1,
            &observed[i],
        );
        proof {
            assert(ds.take(i + 1).drop_last() =~= ds.take(i as int));
            assert(os.take(i + 1).drop_last() =~= os.take(i as int));
            assert(ds.take(i + 1)[ds.take(i + 1).len() - 1] == ds[i as int]);
            assert(os.take(i + 1)[os.take(i + 1).len() - 1] == os[i as int]);
        }
        let ghost before = discrepancies@;
        let ghost child_discs = child.discrepancies@;
        discrepancies.append(&mut child.discrepancies);
        proof {
            assert(discs_view(discrepancies@) =~= discs_view(before) + discs_view(child_discs));
        }
        visited = saturating_add_u64(visited, child.visited);
        i = i + 1;
    }
    proof {
        assert(ds.take(n as int) =~= ds);
        assert(os.take(n as int) =~= os);
    }
    VerificationResult { discrepancies, visited }
}

/// `verify_tree` behind its own precondition check: verifies the tree
/// where the observations cover it, and reports `None` — touching
/// nothing — where they do not.
pub fn verify_tree_checked(root: &PackageLockJSONRoot, observed: &Vec<ObservedNode>) -> (r:
    Option<VerificationResult>)
    ensures
        r is Some <==> forest_covers(root.dependencies@, observed@),
        r matches Some(res) ==> discs_view(res.discrepancies@) == spec_children_discs(
            root.dependencies@,
            observed@,
        ) && res.visited == clamp_u64(spec_children_visited(root.dependencies@, observed@)),
{
    let n = root.dependencies.len();
    if observed.len() != n {
        return None;
    }
    let mut i: usize = 0;
    while i < n
        invariant
            i <= n,
            n == root.dependencies@.len(),
            observed@.len() == n,
            forall|m: int|
                0 <= m < i ==> observed_covers(
                    (#[trigger] root.dependencies@[m]).1,
                    observed@[m],
                ),
        decreases n - i,
    {
        if !observation_covers(&root.dependencies[i].1, &observed[i]) {
            return None;
        }
        i = i + 1;
    }
    Some(verify_tree(root, observed))
}

/// Against an installation with no file at all — every probe missing —
/// each top-level declared package is visited and yields exactly one
/// discrepancy carrying the missing sentinel, and nothing below it is
/// reached. For a flat declaration, where no package declares children,
/// that is exactly one discrepancy per declared node.
pub proof fn lemma_missing_installation(
    ds: Seq<(String, PackageLockDependency)>,
    os: Seq<ObservedNode>,
)
    requires
        os.len() == ds.len(),
        forall|i: int| 0 <= i < os.len() ==> (#[trigger] os[i]).probe is Missing,
    ensures
        spec_children_discs(ds, os).len() == ds.len(),
        forall|i: int|
            0 <= i < ds.len() ==> spec_children_discs(ds, os)[i] == (DiscrepancyModel {
                package_name: (#[trigger] ds[i]).0@,
                expected_version: ds[i].1.version@,
                actual_version: missing_sentinel(),
            }),
        spec_children_visited(ds, os) == ds.len(),
    decreases ds,
{
    if ds.len() > 0 {
        let dl = ds.drop_last();
        let ol = os.drop_last();
        assert forall|i: int| 0 <= i < ol.len() implies (#[trigger] ol[i]).probe is Missing by {
            assert(os[i].probe is Missing);
        }
        lemma_missing_installation(dl, ol);
        let last = ds.len() - 1;
        let node = spec_node_discs(ds[last].0@, ds[last].1, os[last]);
        assert(os[last].probe is Missing);
        assert(node_actual(ds[last].1.version@, os[last].probe) == Some(missing_sentinel()));
        assert(node =~= seq![
            DiscrepancyModel {
                package_name: ds[last].0@,
                expected_version: ds[last].1.version@,
                actual_version: missing_sentinel(),
            },
        ]);
        assert(spec_children_discs(ds, os) == spec_children_discs(dl, ol) + node);
        assert(spec_node_visited(ds[last].1, os[last]) == 1);
        assert(spec_children_visited(ds, os) == spec_children_visited(dl, ol)
            + spec_node_visited(ds[last].1, os[last]));
        assert forall|i: int|
            0 <= i < ds.len() implies spec_children_discs(ds, os)[i] == (DiscrepancyModel {
                package_name: (#[trigger] ds[i]).0@,
                expected_version: ds[i].1.version@,
                actual_version: missing_sentinel(),
            }) by {
            if i < last {
                assert(dl[i] == ds[i]);
                assert((spec_children_discs(dl, ol) + node)[i] == spec_children_discs(dl, ol)[i]);
                assert(spec_children_discs(dl, ol)[i] == (DiscrepancyModel {
                    package_name: dl[i].0@,
                    expected_version: dl[i].1.version@,
                    actual_version: missing_sentinel(),
                }));
            } else {
                assert((spec_children_discs(dl, ol) + node)[i] == node[0]);
            }
        }
    }
}

/// A declaration in which no package declares children holds exactly as
/// many nodes as it has top-level entries.
pub proof fn lemma_flat_declared_count(ds: Seq<(String, PackageLockDependency)>)
    requires
        forall|i: int| 0 <= i < ds.len() ==> (#[trigger] ds[i]).1.dependencies is None,
    ensures
        declared_count_seq(ds) == ds.len(),
    decreases ds,
{
    if ds.len() > 0 {
        let dl = ds.drop_last();
        assert forall|i: int|
            0 <= i < dl.len() implies (#[trigger] dl[i]).1.dependencies is None by {
            assert(ds[i].1.dependencies is None);
        }
        lemma_flat_declared_count(dl);
        assert(ds[ds.len() - 1].1.dependencies is None);
        assert(declared_count(ds[ds.len() - 1].1) == 1);
        assert(declared_count_seq(ds) == declared_count_seq(dl) + declared_count(
            ds[ds.len() - 1].1,
        ));
    }
}

/// The installation matches the declaration at every node of this
/// subtree: each descriptor was read and parsed and reports exactly the
/// declared version, with one observation per declared child.
pub open spec fn installation_matches(d: PackageLockDependency, o: ObservedNode) -> bool
    decreases d,
{
    &&& o.probe matches ProbeOutcome::Content(text) && installed_version_of(text@) == Ok::<
        Seq<char>,
        ParseErrorModel,
    >(d.version@)
    &&& match d.dependencies {
        Some(deps) => o.children@.len() == deps@.len() && (forall|i: int|
            0 <= i < deps@.len() ==> installation_matches(
                (#[trigger] deps@[i]).1,
                o.children@[i],
            )),
        None => true,
    }
}

/// The installation matches the declaration over a whole forest.
pub open spec fn forest_matches(
    ds: Seq<(String, PackageLockDependency)>,
    os: Seq<ObservedNode>,
) -> bool {
    os.len() == ds.len() && (forall|i: int|
        0 <= i < ds.len() ==> installation_matches((#[trigger] ds[i]).1, os[i]))
}

/// Where the installation matches the declaration throughout a subtree,
/// the subtree reports nothing and every one of its declared nodes is
/// visited.
pub proof fn lemma_matching_node(name: Seq<char>, d: PackageLockDependency, o: ObservedNode)
    requires
        installation_matches(d, o),
    ensures
        spec_node_discs(name, d, o) =~= Seq::<DiscrepancyModel>::empty(),
        spec_node_visited(d, o) == declared_count(d),
    decreases d,
{
    match d.dependencies {
        Some(deps) => {
            lemma_matching_forest(deps@, o.children@);
        },
        None => {},
    }
}

/// Where every descriptor version exactly matches its declared version,
/// the discrepancy sequence is empty and the visited count equals the
/// total declared node count.
pub proof fn lemma_matching_forest(
    ds: Seq<(String, PackageLockDependency)>,
    os: Seq<ObservedNode>,
)
    requires
        forest_matches(ds, os),
    ensures
        spec_children_discs(ds, os) =~= Seq::<DiscrepancyModel>::empty(),
        spec_children_visited(ds, os) == declared_count_seq(ds),
    decreases ds,
{
    if ds.len() > 0 {
        lemma_matching_forest(ds.drop_last(), os.drop_last());
        lemma_matching_node(ds[ds.len() - 1].0@, ds[ds.len() - 1].1, os[os.len() - 1]);
    }
}

/// A discrepancy at a node does not suppress its children's reports: as
/// long as the descriptor parsed, the node's own report (here a version
/// mismatch) is followed by everything its children report.
pub proof fn lemma_mismatch_still_descends(
    name: Seq<char>,
    d: PackageLockDependency,
    o: ObservedNode,
)
    requires
        probe_descends(o.probe),
        node_actual(d.version@, o.probe) is Some,
    ensures
        spec_node_discs(name, d, o) =~= seq![
            DiscrepancyModel {
                package_name: name,
                expected_version: d.version@,
                actual_version: node_actual(d.version@, o.probe)->0,
            },
        ] + (match d.dependencies {
            Some(deps) => spec_children_discs(deps@, o.children@),
            None => Seq::<DiscrepancyModel>::empty(),
        }),
{
}

/// Verification is a pure function of the declared forest and the probe
/// outcomes: two runs against an unchanged lockfile and filesystem
/// report the same discrepancy sequence and the same visited count.
pub proof fn lemma_verification_deterministic(
    ds: Seq<(String, PackageLockDependency)>,
    os: Seq<ObservedNode>,
    first_discs: Seq<DiscrepancyModel>,
    first_visited: nat,
    second_discs: Seq<DiscrepancyModel>,
    second_visited: nat,
)
    requires
        first_discs == spec_children_discs(ds, os),
        first_visited == spec_children_visited(ds, os),
        second_discs == spec_children_discs(ds, os),
        second_visited == spec_children_visited(ds, os),
    ensures
        first_discs == second_discs,
        first_visited == second_visited,
{
}

/// A descriptor whose text does not yield a version — unreadable JSON or
/// the wrong shape — produces exactly one discrepancy for its node, with
/// a non-empty diagnostic embedded in the actual-version field, and is
/// terminal for its branch alone.
pub proof fn lemma_malformed_descriptor(name: Seq<char>, d: PackageLockDependency, o: ObservedNode)
    requires
        o.probe matches ProbeOutcome::Content(text) && installed_version_of(text@) is Err,
    ensures
        spec_node_discs(name, d, o).len() == 1,
        spec_node_discs(name, d, o)[0].package_name == name,
        spec_node_discs(name, d, o)[0].expected_version == d.version@,
        spec_node_discs(name, d, o)[0].actual_version.len() > 0,
        spec_node_visited(d, o) == 1,
{
    reveal_strlit("Unknown (");
}

/// Sibling subtrees are independent: the forest's report is each
/// position's own report in place, between what its earlier and later
/// siblings report, whatever happened at that position.
pub proof fn lemma_forest_decompose(
    ds: Seq<(String, PackageLockDependency)>,
    os: Seq<ObservedNode>,
    k: int,
)
    requires
        os.len() == ds.len(),
        0 <= k < ds.len(),
    ensures
        spec_children_discs(ds, os) =~= spec_children_discs(ds.take(k), os.take(k))
            + spec_node_discs(ds[k].0@, ds[k].1, os[k]) + spec_children_discs(
            ds.skip(k + 1),
            os.skip(k + 1),
        ),
        spec_children_visited(ds, os) == spec_children_visited(ds.take(k), os.take(k))
            + spec_node_visited(ds[k].1, os[k]) + spec_children_visited(
            ds.skip(k + 1),
            os.skip(k + 1),
        ),
    decreases ds,
{
    if k == ds.len() - 1 {
        assert(ds.take(k) =~= ds.drop_last());
        assert(os.take(k) =~= os.drop_last());
        assert(ds.skip(k + 1) =~= Seq::<(String, PackageLockDependency)>::empty());
        assert(os.skip(k + 1) =~= Seq::<ObservedNode>::empty());
    } else {
        lemma_forest_decompose(ds.drop_last(), os.drop_last(), k);
        assert(ds.drop_last().take(k) =~= ds.take(k));
        assert(os.drop_last().take(k) =~= os.take(k));
        assert(ds.skip(k + 1).drop_last() =~= ds.drop_last().skip(k + 1));
        assert(os.skip(k + 1).drop_last() =~= os.drop_last().skip(k + 1));
        assert(ds.skip(k + 1)[ds.skip(k + 1).len() - 1] == ds[ds.len() - 1]);
        assert(os.skip(k + 1)[os.skip(k + 1).len() - 1] == os[os.len() - 1]);
    }
}

/// The process exit status for a run that produced `discrepancy_count`
/// discrepancies: the count itself, clamped at the status range instead
/// of wrapping.
pub fn exit_code_for(discrepancy_count: usize) -> (r: i32)
    ensures
        discrepancy_count <= i32::MAX ==> r == discrepancy_count,
        discrepancy_count > i32::MAX ==> r == i32::MAX,
{
    if discrepancy_count <= i32::MAX as usize {
        discrepancy_count as i32
    } else {
        i32::MAX
    }
}

} // verus!
