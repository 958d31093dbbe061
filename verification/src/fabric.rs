//! The manifest of a fabric of nodes: which manifests are sound, and who connects to whom.

use crate::json::{json_views, text_or_null, Json, JsonView};
use crate::table::Keyed;
use crate::task::opt_text;
use crate::text::{chars_of, concat2, concat3, concat4, is_alnum, is_alphanumeric, starts_with, str_eq, str_lt, text_lt, views};
use vstd::prelude::*;

verus! {

/// The platform of a node.
#[derive(Debug, Clone, Copy, PartialEq, Eq, Structural)]
pub enum FabricPlatform {
    Macos,
    Linux,
    Windows,
}

/// The architecture of a node.
#[derive(Debug, Clone, Copy, PartialEq, Eq, Structural)]
pub enum FabricArchitecture {
    Aarch64,
    X86_64,
}

/// How a remote node is reached.
#[derive(Debug)]
pub struct FabricConnection {
    pub ssh_alias: String,
}

/// A node of a fabric.
#[derive(Debug)]
pub struct FabricNode {
    pub id: String,
    pub platform: FabricPlatform,
    pub architecture: FabricArchitecture,
    pub connection: Option<FabricConnection>,
    pub allow_roots: Vec<String>,
}

/// What a fabric consists of.
#[derive(Debug)]
pub struct FabricManifest {
    pub api_version: String,
    pub kind: String,
    pub initiator_node: String,
    pub nodes: Vec<FabricNode>,
}

impl Keyed for FabricNode {
    open spec fn key_view(&self) -> Seq<char> {
        self.id@
    }

    fn key(&self) -> (r: &str) {
        self.id.as_str()
    }
}

/// Whether a character may stand in an identity.
pub open spec fn identity_char(c: char) -> bool {
    is_alnum(c) || c == '.' || c == '_' || c == '-'
}

/// Whether a text is an identity.
pub open spec fn is_identity(s: Seq<char>) -> bool {
    s.len() > 0 && forall|i: int| 0 <= i < s.len() ==> identity_char(#[trigger] s[i])
}

/// The refusal of an identity.
pub open spec fn identity_error(s: Seq<char>) -> Seq<char> {
    "invalid node identity or SSH alias: "@ + s
}

/// Checks an identity: letters, digits, dots, underscores and hyphens, one at least.
pub fn validate_identity(value: &str) -> (r: Result<(), String>)
    ensures
        r is Ok == is_identity(value@),
        r matches Err(e) ==> e@ == identity_error(value@),
{
    let v = chars_of(value);
    let mut fine = v.len() > 0;
    let mut i: usize = 0;
    while i < v.len()
        invariant
            i <= v.len(),
            v@ == value@,
            fine == (v@.len() > 0 && forall|k: int| 0 <= k < i ==> identity_char(#[trigger] value@[k])),
        decreases v.len() - i,
    {
        let c = v[i];
        if !is_alphanumeric(c) && c != '.' && c != '_' && c != '-' {
            assert(!identity_char(value@[i as int]));
            fine = false;
        }
        i += 1;
    }
    if fine {
        Ok(())
    } else {
        Err(concat2("invalid node identity or SSH alias: ", value))
    }
}

/// A path without the slashes of either kind at its end.
pub open spec fn trim_slashes(s: Seq<char>) -> Seq<char>
    decreases s.len(),
{
    if s.len() > 0 && (s.last() == '/' || s.last() == '\\') {
        trim_slashes(s.drop_last())
    } else {
        s
    }
}

/// Whether a character is a letter of ASCII.
pub open spec fn is_letter(c: char) -> bool {
    ('a' <= c && c <= 'z') || ('A' <= c && c <= 'Z')
}

fn letter(c: char) -> (r: bool)
    ensures
        r == is_letter(c),
{
    ('a' <= c && c <= 'z') || ('A' <= c && c <= 'Z')
}

/// Whether a path is all of a drive, a file system or a home directory.
pub open spec fn is_broad(s: Seq<char>) -> bool {
    let t = trim_slashes(s);
    s.len() == 0 || s == "/"@ || s == "~"@ || s == "$HOME"@ || s == "${user.home}"@ || (t.len() == 2 && is_letter(t[0])
        && t[1] == ':')
}

/// Whether a path begins at a root, a drive or the home directory.
pub open spec fn is_anchored(s: Seq<char>) -> bool {
    (s.len() > 0 && s[0] == '/') || "${user.home}/"@.is_prefix_of(s) || (s.len() > 3 && is_letter(s[0]) && s[1] == ':' && (
    s[2] == '\\' || s[2] == '/'))
}

/// Why a path cannot be a root that an executor may use, if it cannot.
pub open spec fn root_error(s: Seq<char>) -> Option<Seq<char>> {
    if is_broad(s) {
        Some("allowRoot must be a narrow non-root path: "@ + s)
    } else if !is_anchored(s) {
        Some("allowRoot must be absolute or start with ${user.home}/: "@ + s)
    } else {
        None
    }
}

/// Checks a root that an executor may use: it is narrow, and does not depend on where one stands.
pub fn validate_allow_root(value: &str) -> (r: Result<(), String>)
    ensures
        match root_error(value@) {
            None => r is Ok,
            Some(e) => r matches Err(x) && x@ == e,
        },
{
    let v = chars_of(value);
    let mut n: usize = v.len();
    proof {
        assert(value@.take(value@.len() as int) =~= value@);
    }
    while n > 0 && (v[n - 1] == '/' || v[n - 1] == '\\')
        invariant
            n <= v@.len(),
            v@ == value@,
            trim_slashes(value@) == trim_slashes(value@.take(n as int)),
        decreases n,
    {
        assert(value@.take(n as int).drop_last() =~= value@.take(n - 1));
        n -= 1;
    }
    assert(n > 0 ==> value@.take(n as int).last() == value@[n - 1]);
    if v.len() == 0 || str_eq(value, "/") || str_eq(value, "~") || str_eq(value, "$HOME") || str_eq(
        value,
        "${user.home}",
    ) || (n == 2 && letter(v[0]) && v[1] == ':') {
        return Err(concat2("allowRoot must be a narrow non-root path: ", value));
    }
    if !(v[0] == '/' || starts_with(value, "${user.home}/") || (v.len() > 3 && letter(v[0]) && v[1] == ':' && (v[2]
        == '\\' || v[2] == '/'))) {
        return Err(concat2("allowRoot must be absolute or start with ${user.home}/: ", value));
    }
    Ok(())
}

/// Whether releases are made for a platform and an architecture.
pub open spec fn is_released(p: FabricPlatform, a: FabricArchitecture) -> bool {
    match p {
        FabricPlatform::Macos => a == FabricArchitecture::Aarch64,
        FabricPlatform::Linux => a == FabricArchitecture::X86_64,
        FabricPlatform::Windows => a == FabricArchitecture::X86_64,
    }
}

fn released(p: FabricPlatform, a: FabricArchitecture) -> (r: bool)
    ensures
        r == is_released(p, a),
{
    match p {
        FabricPlatform::Macos => a == FabricArchitecture::Aarch64,
        FabricPlatform::Linux => a == FabricArchitecture::X86_64,
        FabricPlatform::Windows => a == FabricArchitecture::X86_64,
    }
}

/// The first refusal among the roots of a node, from a position.
pub open spec fn roots_error(node: Seq<char>, roots: Seq<Seq<char>>, from: int) -> Option<Seq<char>>
    decreases roots.len() - from,
{
    if from < 0 || from >= roots.len() {
        None
    } else {
        match root_error(roots[from]) {
            Some(e) => Some("node "@ + node + ": "@ + e),
            None => roots_error(node, roots, from + 1),
        }
    }
}

/// Whether a name is that of one of the first `n` nodes.
pub open spec fn is_named(nodes: Seq<FabricNode>, n: int, id: Seq<char>) -> bool {
    exists|i: int| 0 <= i < n && (#[trigger] nodes[i]).id@ == id
}

/// Why a node is not sound behind the nodes before it, if it is not.
pub open spec fn node_error(m: FabricManifest, i: int) -> Option<Seq<char>> {
    let node = m.nodes@[i];
    if !is_identity(node.id@) {
        Some(identity_error(node.id@))
    } else if is_named(m.nodes@, i, node.id@) {
        Some("duplicate node id: "@ + node.id@)
    } else if node.id@ != m.initiator_node@ && node.connection is None {
        Some("remote node "@ + node.id@ + " needs connection.sshAlias"@)
    } else if node.id@ != m.initiator_node@ && !is_identity(node.connection->0.ssh_alias@) {
        Some(identity_error(node.connection->0.ssh_alias@))
    } else if !is_released(node.platform, node.architecture) {
        Some("node "@ + node.id@ + " uses an unsupported release platform/architecture combination"@)
    } else if node.allow_roots@.len() == 0 {
        Some("node "@ + node.id@ + " needs at least one allowRoot"@)
    } else {
        roots_error(node.id@, views(node.allow_roots@), 0)
    }
}

/// The first refusal among the nodes of a manifest, from a position.
pub open spec fn nodes_error(m: FabricManifest, from: int) -> Option<Seq<char>>
    decreases m.nodes@.len() - from,
{
    if from < 0 || from >= m.nodes@.len() {
        None
    } else {
        match node_error(m, from) {
            Some(e) => Some(e),
            None => nodes_error(m, from + 1),
        }
    }
}

/// Why a manifest is not sound, if it is not.
pub open spec fn manifest_error(m: FabricManifest) -> Option<Seq<char>> {
    if m.api_version@ != "distributed-workbench.dev/v1"@ {
        Some("apiVersion must be distributed-workbench.dev/v1"@)
    } else if m.kind@ != "Fabric"@ {
        Some("kind must be Fabric"@)
    } else if m.nodes@.len() == 0 {
        Some("nodes must not be empty"@)
    } else if nodes_error(m, 0) is Some {
        nodes_error(m, 0)
    } else if !is_named(m.nodes@, m.nodes@.len() as int, m.initiator_node@) {
        Some("initiatorNode does not reference a node"@)
    } else {
        None
    }
}

fn named(nodes: &Vec<FabricNode>, n: usize, id: &str) -> (r: bool)
    requires
        n <= nodes@.len(),
    ensures
        r == is_named(nodes@, n as int, id@),
{
    let mut i: usize = 0;
    while i < n
        invariant
            i <= n <= nodes@.len(),
            forall|k: int| 0 <= k < i ==> (#[trigger] nodes@[k]).id@ != id@,
        decreases n - i,
    {
        if str_eq(nodes[i].id.as_str(), id) {
            assert(nodes@[i as int].id@ == id@);
            return true;
        }
        i += 1;
    }
    false
}

fn check_node(m: &FabricManifest, i: usize) -> (r: Result<(), String>)
    requires
        i < m.nodes@.len(),
    ensures
        match node_error(*m, i as int) {
            None => r is Ok,
            Some(e) => r matches Err(x) && x@ == e,
        },
{
    let node = &m.nodes[i];
    if let Err(e) = validate_identity(node.id.as_str()) {
        return Err(e);
    }
    if named(&m.nodes, i, node.id.as_str()) {
        return Err(concat2("duplicate node id: ", node.id.as_str()));
    }
    if !str_eq(node.id.as_str(), m.initiator_node.as_str()) {
        match &node.connection {
            None => return Err(concat3("remote node ", node.id.as_str(), " needs connection.sshAlias")),
            Some(c) => {
                if let Err(e) = validate_identity(c.ssh_alias.as_str()) {
                    return Err(e);
                }
            },
        }
    }
    if !released(node.platform, node.architecture) {
        return Err(
            concat3("node ", node.id.as_str(), " uses an unsupported release platform/architecture combination"),
        );
    }
    if node.allow_roots.len() == 0 {
        return Err(concat3("node ", node.id.as_str(), " needs at least one allowRoot"));
    }
    let ghost roots = views(node.allow_roots@);
    let mut k: usize = 0;
    while k < node.allow_roots.len()
        invariant
            k <= node.allow_roots@.len(),
            i < m.nodes@.len(),
            *node == m.nodes@[i as int],
            roots == views(node.allow_roots@),
            node_error(*m, i as int) == roots_error(node.id@, roots, k as int),
        decreases node.allow_roots@.len() - k,
    {
        assert(roots[k as int] == node.allow_roots@[k as int]@);
        if let Err(e) = validate_allow_root(node.allow_roots[k].as_str()) {
            return Err(concat4("node ", node.id.as_str(), ": ", e.as_str()));
        }
        k += 1;
    }
    Ok(())
}

impl FabricManifest {
    /// Checks that a manifest is sound: its nodes have different names and narrow roots, releases
    /// are made for them, the remote ones say how they are reached, and the node that connects to
    /// the others is one of them. The first thing that is wrong is reported.
    pub fn check(&self) -> (r: Result<(), String>)
        ensures
            match manifest_error(*self) {
                None => r is Ok,
                Some(e) => r matches Err(x) && x@ == e,
            },
    {
        if !str_eq(self.api_version.as_str(), "distributed-workbench.dev/v1") {
            return Err("apiVersion must be distributed-workbench.dev/v1".to_owned());
        }
        if !str_eq(self.kind.as_str(), "Fabric") {
            return Err("kind must be Fabric".to_owned());
        }
        if self.nodes.len() == 0 {
            return Err("nodes must not be empty".to_owned());
        }
        let mut i: usize = 0;
        while i < self.nodes.len()
            invariant
                i <= self.nodes@.len(),
                nodes_error(*self, 0) == nodes_error(*self, i as int),
                self.api_version@ == "distributed-workbench.dev/v1"@,
                self.kind@ == "Fabric"@,
                self.nodes@.len() > 0,
            decreases self.nodes@.len() - i,
        {
            if let Err(e) = check_node(self, i) {
                return Err(e);
            }
            i += 1;
        }
        if !named(&self.nodes, self.nodes.len(), self.initiator_node.as_str()) {
            return Err("initiatorNode does not reference a node".to_owned());
        }
        Ok(())
    }
}

/// A connection of a fabric: who opens it, to whom, and how.
#[derive(Debug)]
pub struct FabricLink {
    pub dialer: String,
    pub peer: String,
    pub ssh_alias: Option<String>,
}

/// What a connection is.
pub struct LinkView {
    pub dialer: Seq<char>,
    pub peer: Seq<char>,
    pub ssh_alias: Option<Seq<char>>,
}

impl View for FabricLink {
    type V = LinkView;

    open spec fn view(&self) -> LinkView {
        LinkView { dialer: self.dialer@, peer: self.peer@, ssh_alias: opt_text(self.ssh_alias) }
    }
}

/// What some connections are.
pub open spec fn link_views(links: Seq<FabricLink>) -> Seq<LinkView> {
    Seq::new(links.len(), |i: int| links[i]@)
}

/// The connection that one node opens to another.
pub open spec fn link(dialer: Seq<char>, peer: FabricNode) -> LinkView {
    LinkView {
        dialer,
        peer: peer.id@,
        ssh_alias: match peer.connection {
            Some(c) => Some(c.ssh_alias@),
            None => None,
        },
    }
}

fn link_to(dialer: &str, peer: &FabricNode) -> (r: FabricLink)
    ensures
        r@ == link(dialer@, *peer),
{
    FabricLink {
        dialer: dialer.to_owned(),
        peer: peer.id.clone(),
        ssh_alias: match &peer.connection {
            Some(c) => Some(c.ssh_alias.clone()),
            None => None,
        },
    }
}

/// The positions of the first `n` nodes that are not the one that connects to the others.
pub open spec fn remotes(nodes: Seq<FabricNode>, initiator: Seq<char>, n: int) -> Seq<int>
    decreases n,
{
    if n <= 0 {
        Seq::empty()
    } else if nodes[n - 1].id@ != initiator {
        remotes(nodes, initiator, n - 1).push(n - 1)
    } else {
        remotes(nodes, initiator, n - 1)
    }
}

/// Whether of two remote nodes the first connects to the second: a node connects to one that runs
/// Windows rather than the other way, and otherwise the node with the smaller name connects.
pub open spec fn dials(left: FabricNode, right: FabricNode) -> bool {
    if left.platform != FabricPlatform::Windows && right.platform == FabricPlatform::Windows {
        true
    } else if left.platform == FabricPlatform::Windows && right.platform != FabricPlatform::Windows {
        false
    } else {
        !text_lt(right.id@, left.id@)
    }
}

/// The connection between two remote nodes.
pub open spec fn pair_link(left: FabricNode, right: FabricNode) -> LinkView {
    if dials(left, right) {
        link(left.id@, right)
    } else {
        link(right.id@, left)
    }
}

/// The connections of a remote node with the remote nodes at a place and behind it.
pub open spec fn links_from(nodes: Seq<FabricNode>, far: Seq<int>, i: int, k: int) -> Seq<LinkView>
    decreases far.len() - k,
{
    if k < 0 || k >= far.len() {
        Seq::empty()
    } else {
        seq![pair_link(nodes[far[i]], nodes[far[k]])] + links_from(nodes, far, i, k + 1)
    }
}

/// The connections among the remote nodes at a place and behind it.
pub open spec fn mesh_from(nodes: Seq<FabricNode>, far: Seq<int>, i: int) -> Seq<LinkView>
    decreases far.len() - i,
{
    if i < 0 || i >= far.len() {
        Seq::empty()
    } else {
        links_from(nodes, far, i, i + 1) + mesh_from(nodes, far, i + 1)
    }
}

/// The connections that the first node opens.
pub open spec fn spokes(initiator: Seq<char>, nodes: Seq<FabricNode>, far: Seq<int>) -> Seq<LinkView> {
    Seq::new(far.len(), |i: int| link(initiator, nodes[far[i]]))
}

/// The connections of a fabric.
pub open spec fn plan_view(m: FabricManifest) -> Seq<LinkView> {
    let far = remotes(m.nodes@, m.initiator_node@, m.nodes@.len() as int);
    spokes(m.initiator_node@, m.nodes@, far) + mesh_from(m.nodes@, far, 0)
}

proof fn lemma_remotes(nodes: Seq<FabricNode>, initiator: Seq<char>, n: int)
    requires
        n <= nodes.len(),
    ensures
        remotes(nodes, initiator, n).len() <= (if n > 0 { n } else { 0 }),
        forall|i: int|
            0 <= i < remotes(nodes, initiator, n).len() ==> 0 <= #[trigger] remotes(nodes, initiator, n)[i] < n
                && nodes[remotes(nodes, initiator, n)[i]].id@ != initiator,
        forall|k: int|
            0 <= k < n && (#[trigger] nodes[k]).id@ != initiator ==> remotes(nodes, initiator, n).contains(k),
    decreases n,
{
    if n > 0 {
        lemma_remotes(nodes, initiator, n - 1);
        let a = remotes(nodes, initiator, n - 1);
        let b = remotes(nodes, initiator, n);
        assert forall|k: int| 0 <= k < n && (#[trigger] nodes[k]).id@ != initiator implies b.contains(k) by {
            if k < n - 1 {
                assert(a.contains(k));
                let j = choose|j: int| 0 <= j < a.len() && a[j] == k;
                assert(b[j] == k);
            } else {
                assert(b[b.len() - 1] == k);
            }
        }
    }
}

impl FabricManifest {
    /// Plans who connects to whom: the first node connects to every other, and every two others
    /// are connected too.
    pub fn plan(&self) -> (r: Vec<FabricLink>)
        ensures
            link_views(r@) == plan_view(*self),
    {
        let ghost nodes = self.nodes@;
        let ghost first = self.initiator_node@;
        let mut far: Vec<usize> = Vec::new();
        let mut i: usize = 0;
        while i < self.nodes.len()
            invariant
                i <= nodes.len(),
                nodes == self.nodes@,
                first == self.initiator_node@,
                far@.len() == remotes(nodes, first, i as int).len(),
                forall|k: int| 0 <= k < far@.len() ==> #[trigger] far@[k] == remotes(nodes, first, i as int)[k],
                forall|k: int| 0 <= k < far@.len() ==> 0 <= #[trigger] far@[k] < i,
            decreases self.nodes@.len() - i,
        {
            if !str_eq(self.nodes[i].id.as_str(), self.initiator_node.as_str()) {
                far.push(i);
            }
            i += 1;
        }
        let ghost at = remotes(nodes, first, nodes.len() as int);
        let mut out: Vec<FabricLink> = Vec::new();
        let mut i: usize = 0;
        while i < far.len()
            invariant
                i <= far@.len(),
                nodes == self.nodes@,
                first == self.initiator_node@,
                far@.len() == at.len(),
                forall|k: int| 0 <= k < far@.len() ==> #[trigger] far@[k] == at[k] && far@[k] < nodes.len(),
                out@.len() == i,
                forall|k: int| 0 <= k < i ==> (#[trigger] out@[k])@ == link(first, nodes[at[k]]),
            decreases far@.len() - i,
        {
            let place = far[i];
            out.push(link_to(self.initiator_node.as_str(), &self.nodes[place]));
            i += 1;
        }
        assert(link_views(out@) =~= spokes(first, nodes, at));
        let mut i: usize = 0;
        proof {
            assert(link_views(out@) + mesh_from(nodes, at, 0) =~= plan_view(*self));
        }
        while i < far.len()
            invariant
                i <= far@.len(),
                nodes == self.nodes@,
                far@.len() == at.len(),
                forall|k: int| 0 <= k < far@.len() ==> #[trigger] far@[k] == at[k] && far@[k] < nodes.len(),
                link_views(out@) + mesh_from(nodes, at, i as int) == plan_view(*self),
            decreases far@.len() - i,
        {
            let a = far[i];
            let mut k: usize = i + 1;
            let ghost rest = mesh_from(nodes, at, i + 1);
            proof {
                assert(link_views(out@) + (links_from(nodes, at, i as int, i + 1) + rest) =~= link_views(out@)
                    + links_from(nodes, at, i as int, i + 1) + rest);
            }
            while k < far.len()
                invariant
                    i < k <= far@.len(),
                    nodes == self.nodes@,
                    far@.len() == at.len(),
                    a == at[i as int],
                    a < nodes.len(),
                    forall|j: int| 0 <= j < far@.len() ==> #[trigger] far@[j] == at[j] && far@[j] < nodes.len(),
                    link_views(out@) + links_from(nodes, at, i as int, k as int) + rest == plan_view(*self),
                decreases far@.len() - k,
            {
                let b = far[k];
                let left = &self.nodes[a];
                let right = &self.nodes[b];
                let first_dials = if left.platform != FabricPlatform::Windows && right.platform
                    == FabricPlatform::Windows {
                    true
                } else if left.platform == FabricPlatform::Windows && right.platform != FabricPlatform::Windows {
                    false
                } else {
                    !str_lt(right.id.as_str(), left.id.as_str())
                };
                let l = if first_dials {
                    link_to(left.id.as_str(), right)
                } else {
                    link_to(right.id.as_str(), left)
                };
                let ghost before = out@;
                out.push(l);
                proof {
                    assert(link_views(out@) =~= link_views(before).push(l@));
                    assert(link_views(before) + (seq![l@] + links_from(nodes, at, i as int, k + 1)) + rest
                        =~= link_views(out@) + links_from(nodes, at, i as int, k + 1) + rest);
                }
                k += 1;
            }
            proof {
                assert(link_views(out@) + Seq::<LinkView>::empty() + rest =~= link_views(out@) + rest);
            }
            i += 1;
        }
        assert(link_views(out@) + Seq::<LinkView>::empty() =~= link_views(out@));
        out
    }
}

/// Whether a connection is one between two nodes.
pub open spec fn joins(l: LinkView, a: Seq<char>, b: Seq<char>) -> bool {
    (l.dialer == a && l.peer == b) || (l.dialer == b && l.peer == a)
}

/// Whether some connections join two nodes.
pub open spec fn joined(links: Seq<LinkView>, a: Seq<char>, b: Seq<char>) -> bool {
    exists|i: int| 0 <= i < links.len() && joins(#[trigger] links[i], a, b)
}

proof fn lemma_joined_sum(x: Seq<LinkView>, y: Seq<LinkView>, a: Seq<char>, b: Seq<char>)
    ensures
        joined(x, a, b) || joined(y, a, b) ==> joined(x + y, a, b),
{
    let z = x + y;
    if joined(x, a, b) {
        let i = choose|i: int| 0 <= i < x.len() && joins(#[trigger] x[i], a, b);
        assert(z[i] == x[i]);
    } else if joined(y, a, b) {
        let i = choose|i: int| 0 <= i < y.len() && joins(#[trigger] y[i], a, b);
        assert(z[x.len() + i] == y[i]);
    }
}

proof fn lemma_links_join(nodes: Seq<FabricNode>, far: Seq<int>, i: int, from: int, k: int)
    requires
        0 <= from <= k < far.len(),
    ensures
        joined(links_from(nodes, far, i, from), nodes[far[i]].id@, nodes[far[k]].id@),
    decreases k - from,
{
    let a = nodes[far[i]].id@;
    let b = nodes[far[k]].id@;
    let head = seq![pair_link(nodes[far[i]], nodes[far[from]])];
    let tail = links_from(nodes, far, i, from + 1);
    if from < k {
        lemma_links_join(nodes, far, i, from + 1, k);
    } else {
        assert(joins(head[0], a, b));
        assert(joined(head, a, b));
    }
    lemma_joined_sum(head, tail, a, b);
}

proof fn lemma_mesh_joins(nodes: Seq<FabricNode>, far: Seq<int>, from: int, i: int, k: int)
    requires
        0 <= from <= i < k < far.len(),
    ensures
        joined(mesh_from(nodes, far, from), nodes[far[i]].id@, nodes[far[k]].id@),
    decreases i - from,
{
    let a = nodes[far[i]].id@;
    let b = nodes[far[k]].id@;
    if from < i {
        lemma_mesh_joins(nodes, far, from + 1, i, k);
    } else {
        lemma_links_join(nodes, far, i, i + 1, k);
    }
    lemma_joined_sum(links_from(nodes, far, from, from + 1), mesh_from(nodes, far, from + 1), a, b);
}

/// A plan is a full mesh: every two nodes with different names are connected.
pub proof fn plan_is_a_full_mesh(m: FabricManifest, i: int, k: int)
    requires
        manifest_error(m) is None,
        0 <= i < m.nodes@.len(),
        0 <= k < m.nodes@.len(),
        m.nodes@[i].id@ != m.nodes@[k].id@,
    ensures
        joined(plan_view(m), m.nodes@[i].id@, m.nodes@[k].id@),
{
    let nodes = m.nodes@;
    let first = m.initiator_node@;
    let far = remotes(nodes, first, nodes.len() as int);
    let a = nodes[i].id@;
    let b = nodes[k].id@;
    lemma_remotes(nodes, first, nodes.len() as int);
    let hub = spokes(first, nodes, far);
    let mesh = mesh_from(nodes, far, 0);
    if a == first || b == first {
        let other = if a == first {
            k
        } else {
            i
        };
        assert(nodes[other].id@ != first);
        let j = choose|j: int| 0 <= j < far.len() && far[j] == other;
        assert(joins(hub[j], a, b));
    } else {
        assert(far.contains(i) && far.contains(k));
        let x = choose|j: int| 0 <= j < far.len() && far[j] == i;
        let y = choose|j: int| 0 <= j < far.len() && far[j] == k;
        if x < y {
            lemma_mesh_joins(nodes, far, 0, x, y);
        } else {
            lemma_mesh_joins(nodes, far, 0, y, x);
            let j = choose|j: int| 0 <= j < mesh.len() && joins(#[trigger] mesh[j], b, a);
            assert(joins(mesh[j], a, b));
        }
        assert(joined(mesh, a, b));
    }
    lemma_joined_sum(hub, mesh, a, b);
}

/// How many connections a full mesh of `n` nodes has.
pub open spec fn mesh_size(n: int) -> int
    decreases n,
{
    if n <= 0 {
        0
    } else {
        n - 1 + mesh_size(n - 1)
    }
}

proof fn lemma_links_len(nodes: Seq<FabricNode>, far: Seq<int>, i: int, k: int)
    requires
        0 <= k <= far.len(),
    ensures
        links_from(nodes, far, i, k).len() == far.len() - k,
    decreases far.len() - k,
{
    if k < far.len() {
        lemma_links_len(nodes, far, i, k + 1);
    }
}

proof fn lemma_mesh_len(nodes: Seq<FabricNode>, far: Seq<int>, i: int)
    requires
        0 <= i <= far.len(),
    ensures
        mesh_from(nodes, far, i).len() == mesh_size(far.len() - i),
    decreases far.len() - i,
{
    if i < far.len() {
        lemma_links_len(nodes, far, i, i + 1);
        lemma_mesh_len(nodes, far, i + 1);
    }
}

/// A plan has no connection too many: as many as a mesh of the remote nodes has, and one more for
/// each of them.
pub proof fn plan_has_no_spare_links(m: FabricManifest)
    ensures
        plan_view(m).len() == mesh_size(
            remotes(m.nodes@, m.initiator_node@, m.nodes@.len() as int).len() as int + 1,
        ),
{
    let far = remotes(m.nodes@, m.initiator_node@, m.nodes@.len() as int);
    lemma_mesh_len(m.nodes@, far, 0);
}

/// Between two remote nodes of which one runs Windows, the other one connects to it.
pub proof fn windows_is_dialed(left: FabricNode, right: FabricNode)
    requires
        left.platform == FabricPlatform::Windows,
        right.platform != FabricPlatform::Windows,
    ensures
        pair_link(left, right) == link(right.id@, left),
        pair_link(right, left) == link(right.id@, left),
{
}

/// The name of a platform in documents.
pub open spec fn platform_view(p: FabricPlatform) -> Seq<char> {
    match p {
        FabricPlatform::Macos => "macos"@,
        FabricPlatform::Linux => "linux"@,
        FabricPlatform::Windows => "windows"@,
    }
}

/// The name of an architecture in documents.
pub open spec fn architecture_view(a: FabricArchitecture) -> Seq<char> {
    match a {
        FabricArchitecture::Aarch64 => "aarch64"@,
        FabricArchitecture::X86_64 => "x86_64"@,
    }
}

/// A node as a document.
pub open spec fn node_json(n: FabricNode) -> JsonView {
    JsonView::obj().plus("allowRoots"@, JsonView::Array(text_items(views(n.allow_roots@)))).plus(
        "architecture"@,
        JsonView::Text(architecture_view(n.architecture)),
    ).plus(
        "connection"@,
        match n.connection {
            Some(c) => JsonView::obj().plus("sshAlias"@, JsonView::Text(c.ssh_alias@)),
            None => JsonView::Null,
        },
    ).plus("id"@, JsonView::Text(n.id@)).plus("platform"@, JsonView::Text(platform_view(n.platform)))
}

/// Texts as documents.
pub open spec fn text_items(items: Seq<Seq<char>>) -> Seq<JsonView> {
    Seq::new(items.len(), |i: int| JsonView::Text(items[i]))
}

/// A connection as a document.
pub open spec fn link_json(l: LinkView) -> JsonView {
    JsonView::obj().plus("dialer"@, JsonView::Text(l.dialer)).plus("peer"@, JsonView::Text(l.peer)).plus(
        "sshAlias"@,
        text_or_null(l.ssh_alias),
    )
}

/// A plan as a document.
pub open spec fn plan_json(m: FabricManifest) -> JsonView {
    JsonView::obj().plus("apiVersion"@, JsonView::Text(m.api_version@)).plus(
        "initiatorNode"@,
        JsonView::Text(m.initiator_node@),
    ).plus("kind"@, JsonView::Text("FabricPlan"@)).plus(
        "links"@,
        JsonView::Array(Seq::new(plan_view(m).len(), |i: int| link_json(plan_view(m)[i]))),
    ).plus("nodes"@, JsonView::Array(Seq::new(m.nodes@.len(), |i: int| node_json(m.nodes@[i]))))
}

fn node_document(n: &FabricNode) -> (r: Json)
    ensures
        r@ == node_json(*n),
{
    let mut roots: Vec<Json> = Vec::new();
    let mut i: usize = 0;
    while i < n.allow_roots.len()
        invariant
            i <= n.allow_roots@.len(),
            roots@.len() == i,
            forall|k: int| 0 <= k < i ==> (#[trigger] roots@[k])@ == JsonView::Text(n.allow_roots@[k]@),
        decreases n.allow_roots@.len() - i,
    {
        roots.push(Json::text(n.allow_roots[i].as_str()));
        i += 1;
    }
    assert(json_views(roots@) =~= text_items(views(n.allow_roots@)));
    let connection = match &n.connection {
        Some(c) => Json::obj().plus("sshAlias", Json::text(c.ssh_alias.as_str())),
        None => Json::Null,
    };
    let architecture = match n.architecture {
        FabricArchitecture::Aarch64 => "aarch64",
        FabricArchitecture::X86_64 => "x86_64",
    };
    let platform = match n.platform {
        FabricPlatform::Macos => "macos",
        FabricPlatform::Linux => "linux",
        FabricPlatform::Windows => "windows",
    };
    Json::obj().plus("allowRoots", Json::array(roots)).plus("architecture", Json::text(architecture)).plus(
        "connection",
        connection,
    ).plus("id", Json::text(n.id.as_str())).plus("platform", Json::text(platform))
}

impl FabricManifest {
    /// The plan of a fabric as a document: its nodes, and who connects to whom.
    pub fn plan_document(&self) -> (r: Json)
        ensures
            r@ == plan_json(*self),
    {
        let links = self.plan();
        let ghost planned = plan_view(*self);
        let mut rows: Vec<Json> = Vec::new();
        let mut i: usize = 0;
        while i < links.len()
            invariant
                i <= links@.len(),
                link_views(links@) == planned,
                rows@.len() == i,
                forall|k: int| 0 <= k < i ==> (#[trigger] rows@[k])@ == link_json(planned[k]),
            decreases links@.len() - i,
        {
            assert(link_views(links@)[i as int] == links@[i as int]@);
            let l = &links[i];
            rows.push(
                Json::obj().plus("dialer", Json::text(l.dialer.as_str())).plus(
                    "peer",
                    Json::text(l.peer.as_str()),
                ).plus("sshAlias", Json::opt_text(&l.ssh_alias)),
            );
            i += 1;
        }
        let mut nodes: Vec<Json> = Vec::new();
        let mut i: usize = 0;
        while i < self.nodes.len()
            invariant
                i <= self.nodes@.len(),
                nodes@.len() == i,
                forall|k: int| 0 <= k < i ==> (#[trigger] nodes@[k])@ == node_json(self.nodes@[k]),
            decreases self.nodes@.len() - i,
        {
            nodes.push(node_document(&self.nodes[i]));
            i += 1;
        }
        proof {
            assert(link_views(links@).len() == links@.len());
            assert(json_views(rows@) =~= Seq::new(planned.len(), |i: int| link_json(plan_view(*self)[i])));
            assert(json_views(nodes@) =~= Seq::new(self.nodes@.len(), |i: int| node_json(self.nodes@[i])));
        }
        Json::obj().plus("apiVersion", Json::text(self.api_version.as_str())).plus(
            "initiatorNode",
            Json::text(self.initiator_node.as_str()),
        ).plus("kind", Json::text("FabricPlan")).plus("links", Json::array(rows)).plus("nodes", Json::array(nodes))
    }
}

proof fn lemma_roots(node: Seq<char>, roots: Seq<Seq<char>>, from: int)
    requires
        0 <= from <= roots.len(),
    ensures
        roots_error(node, roots, from) is None <==> forall|i: int|
            from <= i < roots.len() ==> root_error(#[trigger] roots[i]) is None,
    decreases roots.len() - from,
{
    if from < roots.len() {
        lemma_roots(node, roots, from + 1);
    }
}

proof fn lemma_nodes(m: FabricManifest, from: int)
    requires
        0 <= from <= m.nodes@.len(),
    ensures
        nodes_error(m, from) is None <==> forall|i: int| from <= i < m.nodes@.len() ==> #[trigger] node_error(m, i) is None,
    decreases m.nodes@.len() - from,
{
    if from < m.nodes@.len() {
        lemma_nodes(m, from + 1);
    }
}

/// Whether a node of a manifest can be part of a fabric.
pub open spec fn sound_node(m: FabricManifest, i: int) -> bool {
    let node = m.nodes@[i];
    &&& is_identity(node.id@)
    &&& forall|k: int| 0 <= k < i ==> (#[trigger] m.nodes@[k]).id@ != node.id@
    &&& node.id@ != m.initiator_node@ ==> (node.connection matches Some(c) && is_identity(c.ssh_alias@))
    &&& node.platform == FabricPlatform::Macos ==> node.architecture == FabricArchitecture::Aarch64
    &&& node.platform != FabricPlatform::Macos ==> node.architecture == FabricArchitecture::X86_64
    &&& node.allow_roots@.len() > 0
    &&& forall|k: int| 0 <= k < node.allow_roots@.len() ==> root_error((#[trigger] node.allow_roots@[k])@) is None
}

proof fn lemma_sound_node(m: FabricManifest, i: int)
    requires
        0 <= i < m.nodes@.len(),
    ensures
        node_error(m, i) is None <==> sound_node(m, i),
{
    let node = m.nodes@[i];
    let roots = views(node.allow_roots@);
    lemma_roots(node.id@, roots, 0);
    assert(roots.len() == node.allow_roots@.len());
    assert forall|k: int| 0 <= k < node.allow_roots@.len() implies #[trigger] roots[k] == node.allow_roots@[k]@ by {}
    if roots_error(node.id@, roots, 0) is None {
        assert forall|k: int| 0 <= k < node.allow_roots@.len() implies root_error((#[trigger] node.allow_roots@[k])@) is None by {
            assert(root_error(roots[k]) is None);
        }
    }
    if forall|k: int| 0 <= k < node.allow_roots@.len() ==> root_error((#[trigger] node.allow_roots@[k])@) is None {
        assert forall|k: int| 0 <= k < roots.len() implies root_error(#[trigger] roots[k]) is None by {
            assert(roots[k] == node.allow_roots@[k]@);
        }
    }
}

/// A manifest passes exactly where it is of the version and the kind that are known, has nodes, all
/// of them sound and of different names, and names one of them as the initiator.
pub proof fn manifest_passes_where_it_is_sound(m: FabricManifest)
    ensures
        manifest_error(m) is None == (m.api_version@ == "distributed-workbench.dev/v1"@ && m.kind@ == "Fabric"@
            && m.nodes@.len() > 0 && (forall|i: int| 0 <= i < m.nodes@.len() ==> #[trigger] sound_node(m, i)) && (exists|i: int|
            0 <= i < m.nodes@.len() && (#[trigger] m.nodes@[i]).id@ == m.initiator_node@)),
{
    lemma_nodes(m, 0);
    if nodes_error(m, 0) is None {
        assert forall|i: int| 0 <= i < m.nodes@.len() implies #[trigger] sound_node(m, i) by {
            lemma_sound_node(m, i);
            assert(node_error(m, i) is None);
        }
    }
    if forall|i: int| 0 <= i < m.nodes@.len() ==> #[trigger] sound_node(m, i) {
        assert forall|i: int| 0 <= i < m.nodes@.len() implies #[trigger] node_error(m, i) is None by {
            lemma_sound_node(m, i);
            assert(sound_node(m, i));
        }
    }
}

/// A directory that is given out is anchored, and is neither a root nor a home.
pub proof fn given_directories_are_narrow(s: Seq<char>)
    requires
        root_error(s) is None,
    ensures
        s.len() > 0,
        s != "/"@ && s != "~"@ && s != "$HOME"@ && s != "${user.home}"@,
        s[0] == '/' || "${user.home}/"@.is_prefix_of(s) || (s[1] == ':' && (s[2] == '/' || s[2] == '\\')),
        !(s.len() == 2 && 'A' <= s[0] && s[0] <= 'Z' && s[1] == ':'),
{
}

} // verus!
