//! Sandbox policy configuration.

use crate::path::normalize_path;
use crate::proto::{
    FilesystemPolicy as ProtoFilesystemPolicy, LandlockPolicy as ProtoLandlockPolicy,
    ProcessPolicy as ProtoProcessPolicy, SandboxPolicy as ProtoSandboxPolicy,
};
use vstd::prelude::*;

verus! {

#[derive(Debug, Clone)]
pub struct SandboxPolicy {
    pub version: u32,
    pub filesystem: FilesystemPolicy,
    pub network: NetworkPolicy,
    pub landlock: LandlockPolicy,
    pub process: ProcessPolicy,
}

#[derive(Debug, Clone)]
pub struct FilesystemPolicy {
    /// Read-only directory allow list.
    pub read_only: Vec<String>,
    /// Read-write directory allow list.
    pub read_write: Vec<String>,
    /// Automatically include the workdir as read-write.
    pub include_workdir: bool,
}

impl FilesystemPolicy {
    /// Nothing is allowed but the workdir, which is writable.
    pub open spec fn is_default(self) -> bool {
        &&& self.read_only@.len() == 0
        &&& self.read_write@.len() == 0
        &&& self.include_workdir
    }

    /// The lists are those of the message, each path normalized; the flag is kept.
    pub open spec fn converted_from(self, proto: ProtoFilesystemPolicy) -> bool {
        &&& crate::path::texts(self.read_only@) == all_normalized(
            crate::path::texts(proto.read_only@),
        )
        &&& crate::path::texts(self.read_write@) == all_normalized(
            crate::path::texts(proto.read_write@),
        )
        &&& self.include_workdir == proto.include_workdir
    }
}

impl Default for FilesystemPolicy {
    fn default() -> (r: Self)
        ensures
            r.is_default(),
    {
        FilesystemPolicy { read_only: Vec::new(), read_write: Vec::new(), include_workdir: true }
    }
}

#[derive(Debug, Clone)]
pub struct NetworkPolicy {
    pub mode: NetworkMode,
    pub proxy: Option<ProxyPolicy>,
}

impl Default for NetworkPolicy {
    fn default() -> (r: Self)
        ensures
            r == (NetworkPolicy { mode: NetworkMode::Block, proxy: None }),
    {
        NetworkPolicy { mode: NetworkMode::Block, proxy: None }
    }
}

#[derive(Debug, Clone, Copy, PartialEq, Eq, Structural)]
pub enum NetworkMode {
    Block,
    Proxy,
    Allow,
}

impl Default for NetworkMode {
    fn default() -> (r: Self)
        ensures
            r is Block,
    {
        NetworkMode::Block
    }
}

/// An address and port of a TCP endpoint.
#[derive(Debug, Clone, Copy, PartialEq, Eq)]
pub enum SocketAddress {
    V4 { octets: [u8; 4], port: u16 },
    V6 { segments: [u16; 8], port: u16, flow_info: u32, scope_id: u32 },
}

#[derive(Debug, Clone)]
pub struct ProxyPolicy {
    /// TCP address for a local HTTP proxy (loopback-only).
    pub http_addr: Option<SocketAddress>,
}

#[derive(Debug, Clone)]
pub struct LandlockPolicy {
    pub compatibility: LandlockCompatibility,
}

impl Default for LandlockPolicy {
    fn default() -> (r: Self)
        ensures
            r.compatibility is BestEffort,
    {
        LandlockPolicy { compatibility: LandlockCompatibility::BestEffort }
    }
}

#[derive(Debug, Clone)]
pub struct ProcessPolicy {
    /// User name to run the sandboxed process as.
    pub run_as_user: Option<String>,
    /// Group name to run the sandboxed process as.
    pub run_as_group: Option<String>,
}

impl Default for ProcessPolicy {
    fn default() -> (r: Self)
        ensures
            r == (ProcessPolicy { run_as_user: None, run_as_group: None }),
    {
        ProcessPolicy { run_as_user: None, run_as_group: None }
    }
}

#[derive(Debug, Clone, Copy, PartialEq, Eq, Structural)]
pub enum LandlockCompatibility {
    BestEffort,
    HardRequirement,
}

impl Default for LandlockCompatibility {
    fn default() -> (r: Self)
        ensures
            r is BestEffort,
    {
        LandlockCompatibility::BestEffort
    }
}

// ---------------------------------------------------------------------------
// Conversions from the policy message
// ---------------------------------------------------------------------------

/// Only the exact text asks for a hard requirement; anything else is best effort.
pub open spec fn landlock_policy(proto: ProtoLandlockPolicy) -> LandlockPolicy {
    LandlockPolicy {
        compatibility: if proto.compatibility@ == "hard_requirement"@ {
            LandlockCompatibility::HardRequirement
        } else {
            LandlockCompatibility::BestEffort
        },
    }
}

impl From<ProtoLandlockPolicy> for LandlockPolicy {
    fn from(proto: ProtoLandlockPolicy) -> (r: Self) {
        let hard = "hard_requirement".to_owned();
        let compatibility = if proto.compatibility == hard {
            LandlockCompatibility::HardRequirement
        } else {
            LandlockCompatibility::BestEffort
        };
        LandlockPolicy { compatibility }
    }
}

impl vstd::std_specs::convert::FromSpecImpl<ProtoLandlockPolicy> for LandlockPolicy {
    open spec fn obeys_from_spec() -> bool {
        true
    }

    open spec fn from_spec(proto: ProtoLandlockPolicy) -> Self {
        landlock_policy(proto)
    }
}

/// The name, unless it is empty.
pub open spec fn non_empty(name: String) -> Option<String> {
    if name@.len() == 0 {
        None
    } else {
        Some(name)
    }
}

/// An empty name means that none is set.
pub open spec fn process_policy(proto: ProtoProcessPolicy) -> ProcessPolicy {
    ProcessPolicy {
        run_as_user: non_empty(proto.run_as_user),
        run_as_group: non_empty(proto.run_as_group),
    }
}

impl From<ProtoProcessPolicy> for ProcessPolicy {
    fn from(proto: ProtoProcessPolicy) -> (r: Self) {
        ProcessPolicy {
            run_as_user: if proto.run_as_user.as_str().is_empty() {
                None
            } else {
                Some(proto.run_as_user)
            },
            run_as_group: if proto.run_as_group.as_str().is_empty() {
                None
            } else {
                Some(proto.run_as_group)
            },
        }
    }
}

impl vstd::std_specs::convert::FromSpecImpl<ProtoProcessPolicy> for ProcessPolicy {
    open spec fn obeys_from_spec() -> bool {
        true
    }

    open spec fn from_spec(proto: ProtoProcessPolicy) -> Self {
        process_policy(proto)
    }
}

/// The texts, normalized one by one.
pub open spec fn all_normalized(list: Seq<Seq<char>>) -> Seq<Seq<char>> {
    list.map_values(|path: Seq<char>| crate::path::normalized(path))
}

fn normalize_all(list: &Vec<String>) -> (r: Vec<String>)
    ensures
        crate::path::texts(r@) == all_normalized(crate::path::texts(list@)),
{
    let mut out: Vec<String> = Vec::new();
    let mut i: usize = 0;
    while i < list.len()
        invariant
            i <= list.len(),
            out.len() == i,
            forall|j: int|
                0 <= j < i ==> (#[trigger] out@[j])@ == crate::path::normalized(list@[j]@),
        decreases list.len() - i,
    {
        out.push(normalize_path(list[i].as_str()));
        i += 1;
    }
    assert(crate::path::texts(out@) =~= all_normalized(crate::path::texts(list@)));
    out
}

impl From<ProtoFilesystemPolicy> for FilesystemPolicy {
    fn from(proto: ProtoFilesystemPolicy) -> (r: Self)
        ensures
            r.converted_from(proto),
    {
        FilesystemPolicy {
            read_only: normalize_all(&proto.read_only),
            read_write: normalize_all(&proto.read_write),
            include_workdir: proto.include_workdir,
        }
    }
}

impl vstd::std_specs::convert::FromSpecImpl<ProtoFilesystemPolicy> for FilesystemPolicy {
    /// The lists are new vectors, which only their contents describe: see `from`.
    open spec fn obeys_from_spec() -> bool {
        false
    }

    open spec fn from_spec(proto: ProtoFilesystemPolicy) -> Self {
        arbitrary()
    }
}

/// Why a policy message cannot be converted. Every message can be.
#[derive(Debug)]
pub struct PolicyError {
    pub message: String,
}

/// The network policy of a sandbox in a cluster: all egress goes through the proxy, whose
/// address is found later.
pub open spec fn cluster_network() -> NetworkPolicy {
    NetworkPolicy { mode: NetworkMode::Proxy, proxy: Some(ProxyPolicy { http_addr: None }) }
}

impl TryFrom<ProtoSandboxPolicy> for SandboxPolicy {
    type Error = PolicyError;

    fn try_from(proto: ProtoSandboxPolicy) -> (r: Result<Self, PolicyError>)
        ensures
            r is Ok,
            r->Ok_0.version == proto.version,
            r->Ok_0.network == cluster_network(),
            match proto.filesystem {
                Some(fs) => r->Ok_0.filesystem.converted_from(fs),
                None => r->Ok_0.filesystem.is_default(),
            },
            r->Ok_0.landlock == match proto.landlock {
                Some(landlock) => landlock_policy(landlock),
                None => LandlockPolicy { compatibility: LandlockCompatibility::BestEffort },
            },
            r->Ok_0.process == match proto.process {
                Some(process) => process_policy(process),
                None => ProcessPolicy { run_as_user: None, run_as_group: None },
            },
    {
        // In cluster mode we always run with proxy networking so all egress
        // can be evaluated and `inference.local` is always addressable.
        let network = NetworkPolicy {
            mode: NetworkMode::Proxy,
            proxy: Some(ProxyPolicy { http_addr: None }),
        };

        Ok(
            SandboxPolicy {
                version: proto.version,
                filesystem: match proto.filesystem {
                    Some(filesystem) => FilesystemPolicy::from(filesystem),
                    None => FilesystemPolicy::default(),
                },
                network,
                landlock: match proto.landlock {
                    Some(landlock) => LandlockPolicy::from(landlock),
                    None => LandlockPolicy::default(),
                },
                process: match proto.process {
                    Some(process) => ProcessPolicy::from(process),
                    None => ProcessPolicy::default(),
                },
            },
        )
    }
}

impl vstd::std_specs::convert::TryFromSpecImpl<ProtoSandboxPolicy> for SandboxPolicy {
    /// The policy holds new vectors, which only their contents describe: see `try_from`.
    open spec fn obeys_try_from_spec() -> bool {
        false
    }

    open spec fn try_from_spec(proto: ProtoSandboxPolicy) -> Result<Self, PolicyError> {
        arbitrary()
    }
}

/// Of two paths of `list` with the same names along them, both from the root or neither, the
/// paths of `normal` in their places are one text.
pub open spec fn aliases_agree(list: Seq<String>, normal: Seq<String>) -> bool {
    forall|i: int, j: int|
        0 <= i < list.len() && 0 <= j < list.len() && crate::path::names((#[trigger] list[i])@)
            == crate::path::names((#[trigger] list[j])@) && crate::path::is_absolute(list[i]@)
            == crate::path::is_absolute(list[j]@) ==> normal[i]@ == normal[j]@
}

/// The paths of a converted policy are in normal form: normalizing them once more changes
/// nothing, and within each list aliases of one path are one text.
pub proof fn law_converted_paths_are_normal(
    proto: ProtoFilesystemPolicy,
    policy: FilesystemPolicy,
)
    requires
        policy.converted_from(proto),
    ensures
        all_normalized(crate::path::texts(policy.read_only@)) == crate::path::texts(
            policy.read_only@,
        ),
        all_normalized(crate::path::texts(policy.read_write@)) == crate::path::texts(
            policy.read_write@,
        ),
        aliases_agree(proto.read_only@, policy.read_only@),
        aliases_agree(proto.read_write@, policy.read_write@),
{
    lemma_all_normalized_twice(crate::path::texts(proto.read_only@));
    lemma_all_normalized_twice(crate::path::texts(proto.read_write@));
    lemma_aliases_agree(proto.read_only@, policy.read_only@);
    lemma_aliases_agree(proto.read_write@, policy.read_write@);
}

proof fn lemma_aliases_agree(list: Seq<String>, normal: Seq<String>)
    requires
        crate::path::texts(normal) == all_normalized(crate::path::texts(list)),
    ensures
        aliases_agree(list, normal),
{
    let out = crate::path::texts(normal);
    assert(out.len() == list.len());
    assert forall|i: int| 0 <= i < list.len() implies (#[trigger] normal[i])@
        == crate::path::normalized(list[i]@) by {
        assert(out[i] == normal[i]@);
        assert(out[i] == crate::path::normalized(list[i]@));
    }
    assert forall|i: int, j: int|
        0 <= i < list.len() && 0 <= j < list.len() && crate::path::names((#[trigger] list[i])@)
            == crate::path::names((#[trigger] list[j])@) && crate::path::is_absolute(list[i]@)
            == crate::path::is_absolute(list[j]@) implies normal[i]@ == normal[j]@ by {
        crate::path::law_normalize_identifies_aliases(list[i]@, list[j]@);
    }
}

proof fn lemma_all_normalized_twice(list: Seq<Seq<char>>)
    ensures
        all_normalized(all_normalized(list)) == all_normalized(list),
{
    assert forall|i: int| 0 <= i < list.len() implies #[trigger] all_normalized(
        all_normalized(list),
    )[i] == all_normalized(list)[i] by {
        crate::path::law_normalize_idempotent(list[i]);
    }
}

/// A converted process policy has no user exactly when the user name of the message is the empty
/// text, and else has that very name; and so for the group.
pub proof fn law_process_names_are_kept(proto: ProtoProcessPolicy)
    ensures
        process_policy(proto).run_as_user is None <==> proto.run_as_user@
            == Seq::<char>::empty(),
        process_policy(proto).run_as_user matches Some(user) ==> user@ == proto.run_as_user@,
        process_policy(proto).run_as_group is None <==> proto.run_as_group@
            == Seq::<char>::empty(),
        process_policy(proto).run_as_group matches Some(group) ==> group@ == proto.run_as_group@,
{
    assert(proto.run_as_user@.len() == 0 ==> proto.run_as_user@ =~= Seq::<char>::empty());
    assert(proto.run_as_group@.len() == 0 ==> proto.run_as_group@ =~= Seq::<char>::empty());
}

/// A hard requirement is made exactly by its own word; every other text is best effort.
pub proof fn law_hard_requirement_by_its_word(proto: ProtoLandlockPolicy)
    ensures
        landlock_policy(proto).compatibility is HardRequirement <==> proto.compatibility@
            == "hard_requirement"@,
        landlock_policy(proto).compatibility is BestEffort <==> proto.compatibility@
            != "hard_requirement"@,
{
}

/// A converted filesystem policy has as many paths in each list as the message, each the normal
/// form of the one in its place, and the same flag.
pub proof fn law_filesystem_paths_are_kept(proto: ProtoFilesystemPolicy, policy: FilesystemPolicy)
    requires
        policy.converted_from(proto),
    ensures
        policy.include_workdir == proto.include_workdir,
        policy.read_only@.len() == proto.read_only@.len(),
        policy.read_write@.len() == proto.read_write@.len(),
        forall|i: int|
            0 <= i < proto.read_only@.len() ==> (#[trigger] policy.read_only@[i])@
                == crate::path::normalized(proto.read_only@[i]@),
        forall|i: int|
            0 <= i < proto.read_write@.len() ==> (#[trigger] policy.read_write@[i])@
                == crate::path::normalized(proto.read_write@[i]@),
{
    let read_only = crate::path::texts(policy.read_only@);
    let read_write = crate::path::texts(policy.read_write@);
    assert(read_only.len() == policy.read_only@.len());
    assert(read_write.len() == policy.read_write@.len());
    assert forall|i: int| 0 <= i < proto.read_only@.len() implies (#[trigger] policy.read_only@[i])@
        == crate::path::normalized(proto.read_only@[i]@) by {
        assert(read_only[i] == policy.read_only@[i]@);
    }
    assert forall|i: int| 0 <= i < proto.read_write@.len() implies (
    #[trigger] policy.read_write@[i])@ == crate::path::normalized(proto.read_write@[i]@) by {
        assert(read_write[i] == policy.read_write@[i]@);
    }
}

/// A path that has nothing to collapse is granted as it stands: a path of the message with no
/// doubled slash, no slash at the end and no dot that stands alone is in the converted policy
/// letter for letter.
pub proof fn law_normal_paths_are_granted_as_they_stand(
    proto: ProtoFilesystemPolicy,
    policy: FilesystemPolicy,
    path: Seq<char>,
)
    requires
        policy.converted_from(proto),
        forall|k: int|
            0 <= k < path.len() - 1 && #[trigger] path[k] == '/' ==> path[k + 1] != '/',
        path.len() > 1 ==> path.last() != '/',
        forall|k: int|
            0 <= k < path.len() && #[trigger] path[k] == '.' && (k == 0 || path[k - 1] == '/') ==> k
                + 1 < path.len() && path[k + 1] != '/',
    ensures
        forall|i: int|
            0 <= i < proto.read_only@.len() && proto.read_only@[i]@ == path ==> (
            #[trigger] policy.read_only@[i])@ == path,
        forall|i: int|
            0 <= i < proto.read_write@.len() && proto.read_write@[i]@ == path ==> (
            #[trigger] policy.read_write@[i])@ == path,
{
    law_filesystem_paths_are_kept(proto, policy);
    crate::path::law_nothing_to_collapse(path);
}

/// Without a filesystem policy nothing is allowed but the workdir.
pub proof fn law_default_filesystem(policy: FilesystemPolicy)
    requires
        policy.is_default(),
    ensures
        policy.read_only@ == Seq::<String>::empty(),
        policy.read_write@ == Seq::<String>::empty(),
        policy.include_workdir,
{
}

/// In a cluster all egress goes through a proxy whose address no message can set.
pub proof fn law_cluster_network_is_proxied()
    ensures
        cluster_network().mode is Proxy,
        cluster_network().proxy is Some,
        cluster_network().proxy->0.http_addr is None,
{
}

} // verus!
