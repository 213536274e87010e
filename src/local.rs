//! The local daemon's decisions and record shaping: status from the CLI's
//! answers, classification of removal failures, inventory records built from
//! the daemon's listings, container creation plans, log formatting, and the
//! system-wide usage totals.
use vstd::prelude::*;
use crate::metrics::{
    DockerManager, ContainerStatsSnapshot, CpuCalculate, or_zero, cpu_result, cache_after,
    network_totals, block_totals, PreviousStats,
};
use crate::remote::is_system_network;
use crate::text::{
    trim, trim_str, contains, contains_str, lowercase_of, to_lowercase, lines_of, lines_str, views,
    decimal, decimal_string, words, words_str, lex_le, u64_of, parse_u64,
};
use crate::remote::system_network;

verus! {

#[derive(Debug)]
pub enum DockerStatus {
    Running,
    NotRunning,
    NotInstalled,
    PermissionDenied,
}

/// What a finished CLI command reported.
pub struct ProcessOutput {
    pub success: bool,
    pub stdout: String,
    pub stderr: String,
}

pub struct ContainerInfo {
    pub id: String,
    pub name: String,
    pub image: String,
    pub state: String,
    pub status: String,
    pub ports: Vec<i32>,
    pub created: i64,
}

pub struct ImageInfo {
    pub id: String,
    pub repository: String,
    pub tag: String,
    pub created: i64,
    pub size: i64,
    pub containers: i64,
    pub in_use: bool,
}

pub struct NetworkInfo {
    pub id: String,
    pub name: String,
    pub driver: String,
    pub scope: String,
    pub created: String,
    pub containers_count: i32,
    pub is_system: bool,
}

pub struct VolumeInfo {
    pub name: String,
    pub driver: String,
    pub mountpoint: String,
    pub created: String,
    pub containers_count: i32,
}

/// A network as the daemon lists it.
pub struct NetworkRecord {
    pub id: String,
    pub name: String,
    pub driver: String,
    pub scope: String,
    pub created: String,
}

/// A volume as the daemon lists it.
pub struct VolumeRecord {
    pub name: String,
    pub driver: String,
    pub mountpoint: String,
    pub created: String,
}

/// A mount of some container: the mounted object's name and the debug
/// spelling of the mount type, where the daemon gives them.
pub struct MountRecord {
    pub name: Option<String>,
    pub kind: Option<String>,
}

pub struct PortMapping {
    pub host_port: u16,
    pub container_port: u16,
    pub protocol: String,
}

pub struct VolumeMapping {
    pub host_path: String,
    pub container_path: String,
    pub read_only: bool,
}

pub struct EnvVar {
    pub key: String,
    pub value: String,
}

pub struct CreateContainerRequest {
    pub name: String,
    pub image: String,
    pub ports: Vec<PortMapping>,
    pub volumes: Vec<VolumeMapping>,
    pub environment: Vec<EnvVar>,
    pub command: Option<String>,
    pub restart_policy: String,
}

#[derive(Debug)]
pub enum RestartPolicyKind {
    Always,
    UnlessStopped,
    OnFailure,
    Never,
}

/// One published port: the container side as `port/protocol`, the host
/// side as a port number in decimal.
pub struct PortBindingPlan {
    pub container_port_key: String,
    pub host_port: String,
}

/// What the daemon is asked for when a container is created.
pub struct ContainerPlan {
    pub port_bindings: Vec<PortBindingPlan>,
    pub env: Vec<String>,
    pub restart: RestartPolicyKind,
    pub maximum_retry_count: Option<i64>,
    pub cmd: Option<Vec<String>>,
}

/// Totals over the running containers of the local daemon.
pub struct DockerSystemUsage {
    pub cpu_online: u64,
    /// Sum of the containers' utilisation, in units of `PERCENT_SCALE` per percent.
    pub cpu_usage_scaled: u128,
    pub memory_usage: u64,
    pub memory_limit: u64,
    pub network_rx_bytes: u64,
    pub network_tx_bytes: u64,
    pub block_read_bytes: u64,
    pub block_write_bytes: u64,
}

/// General information on the local daemon.
pub struct DockerInfo {
    pub version: String,
    pub containers: i64,
    pub containers_paused: i64,
    pub containers_running: i64,
    pub containers_stopped: i64,
    pub images: i64,
    pub architecture: String,
}

pub open spec fn text_or_empty(t: Option<String>) -> Seq<char> {
    match t {
        Some(s) => s@,
        None => Seq::empty(),
    }
}

pub open spec fn count_or_zero(n: Option<i64>) -> i64 {
    match n {
        Some(v) => v,
        None => 0,
    }
}

/// The daemon information from what its version and info answers gave;
/// missing text reads empty and missing counts read zero.
pub fn docker_info(
    version: Option<String>,
    architecture: Option<String>,
    containers: Option<i64>,
    containers_paused: Option<i64>,
    containers_running: Option<i64>,
    containers_stopped: Option<i64>,
    images: Option<i64>,
) -> (r: DockerInfo)
    ensures
        r.version@ == text_or_empty(version),
        r.architecture@ == text_or_empty(architecture),
        r.containers == count_or_zero(containers),
        r.containers_paused == count_or_zero(containers_paused),
        r.containers_running == count_or_zero(containers_running),
        r.containers_stopped == count_or_zero(containers_stopped),
        r.images == count_or_zero(images),
{
    let text = |t: Option<String>| -> (r: String)
        ensures
            r@ == text_or_empty(t),
        {
            match t {
                Some(s) => s,
                None => String::new(),
            }
        };
    let count = |n: Option<i64>| -> (r: i64)
        ensures
            r == count_or_zero(n),
        {
            match n {
                Some(v) => v,
                None => 0,
            }
        };
    DockerInfo {
        version: text(version),
        containers: count(containers),
        containers_paused: count(containers_paused),
        containers_running: count(containers_running),
        containers_stopped: count(containers_stopped),
        images: count(images),
        architecture: text(architecture),
    }
}

// ---------------------------------------------------------------- status

pub open spec fn denied_text(stderr: Seq<char>, stdout: Seq<char>) -> bool {
    ||| contains(stderr, "permission denied"@)
    ||| contains(stderr, "Permission denied"@)
    ||| contains(stderr, "dial unix"@)
    ||| contains(stderr, "connect: permission denied"@)
    ||| contains(stderr, "Got permission denied while trying to connect"@)
    ||| contains(stdout, "permission denied"@)
}

pub open spec fn daemon_down_text(stderr: Seq<char>) -> bool {
    ||| contains(stderr, "Cannot connect to the Docker daemon"@)
    ||| contains(stderr, "Is the docker daemon running?"@)
    ||| contains(stderr, "docker daemon is not running"@)
}

/// The daemon's status from whether `docker --version` succeeded and what
/// `docker info` reported (`None` when it could not be run).
pub open spec fn status_of(version_succeeded: bool, info: Option<ProcessOutput>) -> DockerStatus {
    if !version_succeeded {
        DockerStatus::NotInstalled
    } else {
        match info {
            None => DockerStatus::PermissionDenied,
            Some(o) => if o.success {
                DockerStatus::Running
            } else if denied_text(o.stderr@, o.stdout@) {
                DockerStatus::PermissionDenied
            } else if daemon_down_text(o.stderr@) {
                DockerStatus::NotRunning
            } else {
                DockerStatus::PermissionDenied
            },
        }
    }
}

// ---------------------------------------------------------------- removal errors

/// The message for a failed `docker rmi`, from its error output in lower case.
pub open spec fn image_removal_error_lower(lower: Seq<char>) -> Seq<char> {
    if contains(lower, "conflict"@) && contains(lower, "image is being used by running container"@) {
        "IN_USE:A imagem está em uso por um contêiner."@
    } else {
        "OTHER_ERROR:Não foi possível remover a imagem. Tente forçar a remoção."@
    }
}

/// The message for a failed `docker network rm`, from its error output
/// (`stderr`) and that output in lower case (`lower`).
pub open spec fn network_removal_error_lower(lower: Seq<char>, stderr: Seq<char>) -> Seq<char> {
    if contains(lower, "has active endpoints"@) || contains(lower, "endpoint"@) {
        "IN_USE:A network possui containers conectados."@
    } else if contains(lower, "not found"@) || contains(lower, "no such network"@) {
        "OTHER_ERROR:Network não encontrada."@
    } else {
        "OTHER_ERROR:Não foi possível remover a network: "@ + stderr
    }
}

/// The message for a failed `docker volume rm`, from its error output
/// (`stderr`) and that output in lower case (`lower`).
pub open spec fn volume_removal_error_lower(lower: Seq<char>, stderr: Seq<char>) -> Seq<char> {
    if contains(lower, "volume is in use"@) || contains(lower, "in use"@) {
        "IN_USE:O volume está sendo usado por containers."@
    } else if contains(lower, "not found"@) || contains(lower, "no such volume"@) {
        "OTHER_ERROR:Volume não encontrado."@
    } else {
        "OTHER_ERROR:Não foi possível remover o volume: "@ + stderr
    }
}

/// The message for a failed `docker rmi`, given its error output in lower case.
pub fn image_removal_message_lower(lower: &str) -> (r: String)
    ensures
        r@ == image_removal_error_lower(lower@),
{
    if contains_str(lower, "conflict") && contains_str(lower, "image is being used by running container") {
        String::from_str("IN_USE:A imagem está em uso por um contêiner.")
    } else {
        String::from_str("OTHER_ERROR:Não foi possível remover a imagem. Tente forçar a remoção.")
    }
}

/// The message for a failed `docker rmi`, from its error output.
pub fn image_removal_message(stderr: &str) -> (r: String)
    ensures
        r@ == image_removal_error_lower(lowercase_of(stderr@)),
{
    let lower = to_lowercase(stderr);
    image_removal_message_lower(lower.as_str())
}

/// The message for a failed `docker network rm`, given its error output and
/// that output in lower case.
pub fn network_removal_message_lower(lower: &str, stderr: &str) -> (r: String)
    ensures
        r@ == network_removal_error_lower(lower@, stderr@),
{
    if contains_str(lower, "has active endpoints") || contains_str(lower, "endpoint") {
        String::from_str("IN_USE:A network possui containers conectados.")
    } else if contains_str(lower, "not found") || contains_str(lower, "no such network") {
        String::from_str("OTHER_ERROR:Network não encontrada.")
    } else {
        let mut m = String::from_str("OTHER_ERROR:Não foi possível remover a network: ");
        m.append(stderr);
        m
    }
}

/// The message for a failed `docker network rm`, from its error output.
pub fn network_removal_message(stderr: &str) -> (r: String)
    ensures
        r@ == network_removal_error_lower(lowercase_of(stderr@), stderr@),
{
    let lower = to_lowercase(stderr);
    network_removal_message_lower(lower.as_str(), stderr)
}

/// The message for a failed `docker volume rm`, given its error output and
/// that output in lower case.
pub fn volume_removal_message_lower(lower: &str, stderr: &str) -> (r: String)
    ensures
        r@ == volume_removal_error_lower(lower@, stderr@),
{
    if contains_str(lower, "volume is in use") || contains_str(lower, "in use") {
        String::from_str("IN_USE:O volume está sendo usado por containers.")
    } else if contains_str(lower, "not found") || contains_str(lower, "no such volume") {
        String::from_str("OTHER_ERROR:Volume não encontrado.")
    } else {
        let mut m = String::from_str("OTHER_ERROR:Não foi possível remover o volume: ");
        m.append(stderr);
        m
    }
}

/// The message for a failed `docker volume rm`, from its error output.
pub fn volume_removal_message(stderr: &str) -> (r: String)
    ensures
        r@ == volume_removal_error_lower(lowercase_of(stderr@), stderr@),
{
    let lower = to_lowercase(stderr);
    volume_removal_message_lower(lower.as_str(), stderr)
}

// ---------------------------------------------------------------- images

/// The position of the last `:` in `s`, if any.
pub open spec fn last_colon(s: Seq<char>) -> Option<int>
    decreases s.len(),
{
    if s.len() == 0 {
        None
    } else if s.last() == ':' {
        Some(s.len() - 1)
    } else {
        last_colon(s.drop_last())
    }
}

/// Repository and tag from an image's first `repo:tag`: split at the last
/// `:`; `latest` when there is no `:`; `<none>` for both without tags.
pub open spec fn repo_and_tag(tags: Seq<Seq<char>>) -> (Seq<char>, Seq<char>) {
    if tags.len() == 0 {
        ("<none>"@, "<none>"@)
    } else {
        let t = tags[0];
        match last_colon(t) {
            Some(p) => (t.subrange(0, p), t.subrange(p + 1, t.len() as int)),
            None => (t, "latest"@),
        }
    }
}

/// The record of an image with the given identifier, tags, creation time,
/// size and number of containers using it.
pub fn image_info(id: String, repo_tags: &Vec<String>, created: i64, size: i64, containers: i64) -> (r:
    ImageInfo)
    ensures
        r.id == id,
        (r.repository@, r.tag@) == repo_and_tag(views(repo_tags@)),
        r.created == created,
        r.size == size,
        r.containers == containers,
        r.in_use == (containers > 0),
{
    let (repository, tag) = if repo_tags.len() == 0 {
        (String::from_str("<none>"), String::from_str("<none>"))
    } else {
        let t = repo_tags[0].as_str();
        let n = t.unicode_len();
        let mut i: usize = n;
        proof {
            assert(t@.subrange(0, n as int) =~= t@);
        }
        while i > 0 && t.get_char(i - 1) != ':'
            invariant
                n == t@.len(),
                i <= n,
                last_colon(t@) == last_colon(t@.subrange(0, i as int)),
            decreases i,
        {
            proof {
                assert(t@.subrange(0, i as int).drop_last() =~= t@.subrange(0, i - 1));
            }
            i = i - 1;
        }
        proof {
            assert(t@.subrange(0, n as int) =~= t@);
        }
        if i == 0 {
            proof {
                assert(t@.subrange(0, 0) =~= Seq::<char>::empty());
            }
            (String::from_str(t), String::from_str("latest"))
        } else {
            (
                String::from_str(t.substring_char(0, i - 1)),
                String::from_str(t.substring_char(i, n)),
            )
        }
    };
    ImageInfo { id, repository, tag, created, size, containers, in_use: containers > 0 }
}

/// The image reference `name` denotes an image of the list: its
/// repository, or `repository:tag` (just the repository for tag `latest`).
pub open spec fn names_image(m: ImageInfo, name: Seq<char>) -> bool {
    let full = if m.tag@ == "latest"@ {
        m.repository@
    } else {
        m.repository@ + ":"@ + m.tag@
    };
    full == name || m.repository@ == name
}

/// Whether `image_name` denotes one of `images`.
pub fn image_exists(images: &Vec<ImageInfo>, image_name: &str) -> (r: bool)
    ensures
        r == exists|i: int| 0 <= i < images@.len() && names_image(#[trigger] images@[i], image_name@),
{
    let wanted = String::from_str(image_name);
    let latest = String::from_str("latest");
    let mut i: usize = 0;
    while i < images.len()
        invariant
            i <= images@.len(),
            wanted@ == image_name@,
            latest@ == "latest"@,
            forall|j: int| 0 <= j < i ==> !names_image(#[trigger] images@[j], image_name@),
        decreases images@.len() - i,
    {
        let m = &images[i];
        let full = if m.tag == latest {
            m.repository.clone()
        } else {
            let mut f = m.repository.clone();
            f.append(":");
            f.append(m.tag.as_str());
            f
        };
        if full == wanted || m.repository == wanted {
            return true;
        }
        i = i + 1;
    }
    false
}

// ---------------------------------------------------------------- containers

/// `parts` joined with `sep` between consecutive parts.
pub open spec fn join(parts: Seq<Seq<char>>, sep: Seq<char>) -> Seq<char>
    decreases parts.len(),
{
    if parts.len() == 0 {
        Seq::empty()
    } else if parts.len() == 1 {
        parts[0]
    } else {
        join(parts.drop_last(), sep) + sep + parts.last()
    }
}

/// `s` without its leading `/` characters.
pub open spec fn strip_slashes(s: Seq<char>) -> Seq<char>
    decreases s.len(),
{
    if s.len() > 0 && s[0] == '/' {
        strip_slashes(s.drop_first())
    } else {
        s
    }
}

/// A container's display name: its names joined with `", "`, without the
/// leading `/`s.
pub fn container_name(names: &Vec<String>) -> (r: String)
    ensures
        r@ == strip_slashes(join(views(names@), ", "@)),
{
    let mut joined = String::new();
    let mut i: usize = 0;
    proof {
        assert(views(names@).subrange(0, 0) =~= Seq::<Seq<char>>::empty());
    }
    while i < names.len()
        invariant
            i <= names@.len(),
            joined@ == join(views(names@).subrange(0, i as int), ", "@),
        decreases names@.len() - i,
    {
        proof {
            let sub = views(names@).subrange(0, i + 1);
            assert(sub.drop_last() =~= views(names@).subrange(0, i as int));
            if i == 0 {
                assert(joined@ =~= Seq::<char>::empty());
            }
        }
        if i > 0 {
            joined.append(", ");
        }
        joined.append(names[i].as_str());
        proof {
            if i == 0 {
                assert(joined@ =~= views(names@).subrange(0, 1)[0]);
            }
        }
        i = i + 1;
    }
    proof {
        assert(views(names@).subrange(0, names@.len() as int) =~= views(names@));
    }
    let s = joined.as_str();
    let n = s.unicode_len();
    let mut a: usize = 0;
    proof {
        assert(s@.subrange(0, n as int) =~= s@);
    }
    while a < n && s.get_char(a) == '/'
        invariant
            n == s@.len(),
            a <= n,
            strip_slashes(s@) == strip_slashes(s@.subrange(a as int, n as int)),
        decreases n - a,
    {
        proof {
            assert(s@.subrange(a as int, n as int).drop_first() =~= s@.subrange(a + 1, n as int));
        }
        a = a + 1;
    }
    String::from_str(s.substring_char(a, n))
}

/// The published ports of a container's port list.
pub open spec fn published(ports: Seq<Option<u16>>) -> Seq<i32>
    decreases ports.len(),
{
    if ports.len() == 0 {
        Seq::empty()
    } else {
        match ports.last() {
            Some(p) => published(ports.drop_last()).push(p as i32),
            None => published(ports.drop_last()),
        }
    }
}

/// The record of a container from the daemon's listing; a missing state reads `unknown`.
pub fn container_info(
    id: String,
    names: &Vec<String>,
    image: String,
    state: Option<String>,
    status: String,
    public_ports: &Vec<Option<u16>>,
    created: i64,
) -> (r: ContainerInfo)
    ensures
        r.id == id,
        r.name@ == strip_slashes(join(views(names@), ", "@)),
        r.image == image,
        r.state@ == (match state {
            Some(s) => s@,
            None => "unknown"@,
        }),
        r.status == status,
        r.ports@ == published(public_ports@),
        r.created == created,
{
    let mut ports: Vec<i32> = Vec::new();
    let mut i: usize = 0;
    proof {
        assert(public_ports@.subrange(0, 0) =~= Seq::<Option<u16>>::empty());
    }
    while i < public_ports.len()
        invariant
            i <= public_ports@.len(),
            ports@ == published(public_ports@.subrange(0, i as int)),
        decreases public_ports@.len() - i,
    {
        proof {
            assert(public_ports@.subrange(0, i + 1).drop_last() =~= public_ports@.subrange(
                0,
                i as int,
            ));
        }
        match public_ports[i] {
            Some(p) => ports.push(p as i32),
            None => {},
        }
        i = i + 1;
    }
    proof {
        assert(public_ports@.subrange(0, public_ports@.len() as int) =~= public_ports@);
    }
    let state = match state {
        Some(s) => s,
        None => String::from_str("unknown"),
    };
    ContainerInfo { id, name: container_name(names), image, state, status, ports, created }
}

/// Whether some container of `containers` has display name `name`.
pub fn container_name_exists(containers: &Vec<ContainerInfo>, name: &str) -> (r: bool)
    ensures
        r == exists|i: int| 0 <= i < containers@.len() && #[trigger] containers@[i].name@ == name@,
{
    let wanted = String::from_str(name);
    let mut i: usize = 0;
    while i < containers.len()
        invariant
            i <= containers@.len(),
            wanted@ == name@,
            forall|j: int| 0 <= j < i ==> #[trigger] containers@[j].name@ != name@,
        decreases containers@.len() - i,
    {
        if containers[i].name == wanted {
            return true;
        }
        i = i + 1;
    }
    false
}

// ---------------------------------------------------------------- networks and volumes

/// How many entries of `ids` equal `id`.
pub open spec fn occurrences(ids: Seq<Seq<char>>, id: Seq<char>) -> nat
    decreases ids.len(),
{
    if ids.len() == 0 {
        0
    } else {
        occurrences(ids.drop_last(), id) + if ids.last() == id {
            1nat
        } else {
            0nat
        }
    }
}

proof fn lemma_occurrences_le(ids: Seq<Seq<char>>, id: Seq<char>)
    ensures
        occurrences(ids, id) <= ids.len(),
    decreases ids.len(),
{
    if ids.len() > 0 {
        lemma_occurrences_le(ids.drop_last(), id);
    }
}

/// `n`, saturating at the largest `i32`.
pub open spec fn clamp_count(n: nat) -> i32 {
    if n > i32::MAX {
        i32::MAX
    } else {
        n as i32
    }
}

/// How many containers are attached to network `id`, given the network
/// identifiers of all containers' endpoints.
pub fn attached_count(attached: &Vec<String>, id: &String) -> (r: i32)
    ensures
        r == clamp_count(occurrences(views(attached@), id@)),
{
    let mut count: usize = 0;
    let mut i: usize = 0;
    proof {
        assert(views(attached@).subrange(0, 0) =~= Seq::<Seq<char>>::empty());
    }
    while i < attached.len()
        invariant
            i <= attached@.len(),
            count == occurrences(views(attached@).subrange(0, i as int), id@),
        decreases attached@.len() - i,
    {
        proof {
            assert(views(attached@).subrange(0, i + 1).drop_last() =~= views(attached@).subrange(
                0,
                i as int,
            ));
            lemma_occurrences_le(views(attached@).subrange(0, i as int), id@);
        }
        if attached[i] == *id {
            count = count + 1;
        }
        i = i + 1;
    }
    proof {
        assert(views(attached@).subrange(0, attached@.len() as int) =~= views(attached@));
    }
    if count > 0x7fff_ffff {
        0x7fff_ffff
    } else {
        count as i32
    }
}

/// The user-defined networks of `networks`: `bridge`, `host` and `none` are left out.
pub open spec fn user_networks(networks: Seq<NetworkRecord>) -> Seq<NetworkRecord>
    decreases networks.len(),
{
    if networks.len() == 0 {
        Seq::empty()
    } else if is_system_network(networks.last().name@) {
        user_networks(networks.drop_last())
    } else {
        user_networks(networks.drop_last()).push(networks.last())
    }
}

pub open spec fn network_summary(n: NetworkInfo, rec: NetworkRecord, attached: Seq<Seq<char>>) -> bool {
    &&& n.id == rec.id
    &&& n.name == rec.name
    &&& n.driver == rec.driver
    &&& n.scope == rec.scope
    &&& n.created == rec.created
    &&& n.containers_count == clamp_count(occurrences(attached, rec.id@))
    &&& !n.is_system
}

/// The user-defined networks with the number of containers attached to
/// each, given the network identifiers of all containers' endpoints,
/// ordered by name.
pub fn list_networks(networks: Vec<NetworkRecord>, attached: &Vec<String>) -> (r: Vec<NetworkInfo>)
    ensures
        r@.len() == user_networks(networks@).len(),
        exists|m: Seq<NetworkInfo>|
            m.len() == user_networks(networks@).len() && (forall|i: int|
                0 <= i < m.len() ==> network_summary(
                    #[trigger] m[i],
                    user_networks(networks@)[i],
                    views(attached@),
                )) && r@.to_multiset() == #[trigger] m.to_multiset(),
        forall|i: int, j: int| 0 <= i < j < r@.len() ==> lex_le(r@[i].name@, r@[j].name@),
{
    let mut out = summarize_networks(networks, attached);
    let ghost unsorted = out@;
    sort_networks_by_name(&mut out);
    out
}

/// The user-defined networks with the number of containers attached to
/// each, in the order listed.
fn summarize_networks(networks: Vec<NetworkRecord>, attached: &Vec<String>) -> (r: Vec<
    NetworkInfo,
>)
    ensures
        r@.len() == user_networks(networks@).len(),
        forall|i: int|
            0 <= i < r@.len() ==> network_summary(
                #[trigger] r@[i],
                user_networks(networks@)[i],
                views(attached@),
            ),
{
    let ghost all = networks@;
    let total = networks.len();
    let mut out: Vec<NetworkInfo> = Vec::new();
    let mut rest = networks;
    let mut taken: Vec<NetworkRecord> = Vec::new();
    // Walk the records from the front by reversing once, so each can be moved.
    while rest.len() > 0
        invariant
            taken@.len() + rest@.len() == all.len(),
            forall|j: int| 0 <= j < rest@.len() ==> #[trigger] rest@[j] == all[j],
            forall|j: int|
                0 <= j < taken@.len() ==> #[trigger] taken@[j] == all[all.len() - 1 - j],
        decreases rest@.len(),
    {
        let rec = rest.pop().unwrap();
        taken.push(rec);
    }
    let mut i: usize = 0;
    proof {
        assert(all.subrange(0, 0) =~= Seq::<NetworkRecord>::empty());
    }
    while taken.len() > 0
        invariant
            total == all.len(),
            i + taken@.len() == all.len(),
            forall|j: int|
                0 <= j < taken@.len() ==> #[trigger] taken@[j] == all[all.len() - 1 - j],
            out@.len() == user_networks(all.subrange(0, i as int)).len(),
            forall|j: int|
                0 <= j < out@.len() ==> network_summary(
                    #[trigger] out@[j],
                    user_networks(all.subrange(0, i as int))[j],
                    views(attached@),
                ),
        decreases taken@.len(),
    {
        let rec = taken.pop().unwrap();
        proof {
            assert(rec == all[i as int]);
            assert(all.subrange(0, i + 1).drop_last() =~= all.subrange(0, i as int));
            assert(all.subrange(0, i + 1).last() == rec);
        }
        if !system_network(rec.name.as_str()) {
            let containers_count = attached_count(attached, &rec.id);
            let ghost pre = user_networks(all.subrange(0, i as int));
            out.push(
                NetworkInfo {
                    id: rec.id,
                    name: rec.name,
                    driver: rec.driver,
                    scope: rec.scope,
                    created: rec.created,
                    containers_count,
                    is_system: false,
                },
            );
            proof {
                assert(user_networks(all.subrange(0, i + 1)) == pre.push(rec));
            }
        }
        i = i + 1;
    }
    proof {
        assert(all.subrange(0, all.len() as int) =~= all);
    }
    out
}

/// A mount type whose spelling, in lower case, mentions a volume.
pub open spec fn is_volume_kind_lower(lower: Seq<char>) -> bool {
    contains(lower, "volume"@)
}

/// A mount of a named volume called `name`.
pub open spec fn mounts_volume(m: MountRecord, name: Seq<char>) -> bool {
    &&& m.name is Some
    &&& m.name->0@ == name
    &&& m.kind is Some
    &&& is_volume_kind_lower(lowercase_of(m.kind->0@))
}

/// Whether a mount type, given in lower case, is a volume mount.
pub fn volume_kind_lower(lower: &str) -> (r: bool)
    ensures
        r == is_volume_kind_lower(lower@),
{
    contains_str(lower, "volume")
}

/// How many of `mounts` mount the volume `name`.
pub open spec fn volume_mounts(mounts: Seq<MountRecord>, name: Seq<char>) -> nat
    decreases mounts.len(),
{
    if mounts.len() == 0 {
        0
    } else {
        volume_mounts(mounts.drop_last(), name) + if mounts_volume(mounts.last(), name) {
            1nat
        } else {
            0nat
        }
    }
}

proof fn lemma_volume_mounts_le(mounts: Seq<MountRecord>, name: Seq<char>)
    ensures
        volume_mounts(mounts, name) <= mounts.len(),
    decreases mounts.len(),
{
    if mounts.len() > 0 {
        lemma_volume_mounts_le(mounts.drop_last(), name);
    }
}

/// The number of containers' mounts that use the volume `name`.
pub fn volume_use_count(mounts: &Vec<MountRecord>, name: &String) -> (r: i32)
    ensures
        r == clamp_count(volume_mounts(mounts@, name@)),
{
    let mut count: usize = 0;
    let mut i: usize = 0;
    proof {
        assert(mounts@.subrange(0, 0) =~= Seq::<MountRecord>::empty());
    }
    while i < mounts.len()
        invariant
            i <= mounts@.len(),
            count == volume_mounts(mounts@.subrange(0, i as int), name@),
        decreases mounts@.len() - i,
    {
        proof {
            assert(mounts@.subrange(0, i + 1).drop_last() =~= mounts@.subrange(0, i as int));
            lemma_volume_mounts_le(mounts@.subrange(0, i as int), name@);
        }
        let m = &mounts[i];
        let used = match (&m.name, &m.kind) {
            (Some(n), Some(k)) => *n == *name && volume_kind_lower(to_lowercase(k.as_str()).as_str()),
            _ => false,
        };
        if used {
            count = count + 1;
        }
        i = i + 1;
    }
    proof {
        assert(mounts@.subrange(0, mounts@.len() as int) =~= mounts@);
    }
    if count > 0x7fff_ffff {
        0x7fff_ffff
    } else {
        count as i32
    }
}

/// The record of volume `v`, with the number of mounts using it.
pub fn volume_info(v: VolumeRecord, mounts: &Vec<MountRecord>) -> (r: VolumeInfo)
    ensures
        r.name == v.name,
        r.driver == v.driver,
        r.mountpoint == v.mountpoint,
        r.created == v.created,
        r.containers_count == clamp_count(volume_mounts(mounts@, v.name@)),
{
    let containers_count = volume_use_count(mounts, &v.name);
    VolumeInfo {
        name: v.name,
        driver: v.driver,
        mountpoint: v.mountpoint,
        created: v.created,
        containers_count,
    }
}

// ---------------------------------------------------------------- ordering

/// Relies on `slice::sort_by` with `String::cmp` on the repository: a
/// permutation of the images ordered by repository.
#[verifier::external_body]
fn sort_images_by_repository(images: &mut Vec<ImageInfo>)
    ensures
        final(images)@.len() == old(images)@.len(),
        final(images)@.to_multiset() == old(images)@.to_multiset(),
        forall|i: int, j: int|
            0 <= i < j < final(images)@.len() ==> lex_le(
                final(images)@[i].repository@,
                final(images)@[j].repository@,
            ),
{
    images.sort_by(|a, b| a.repository.cmp(&b.repository));
}

/// Relies on `slice::sort_by` with `String::cmp` on the name: a permutation
/// of the networks ordered by name.
#[verifier::external_body]
fn sort_networks_by_name(networks: &mut Vec<NetworkInfo>)
    ensures
        final(networks)@.len() == old(networks)@.len(),
        final(networks)@.to_multiset() == old(networks)@.to_multiset(),
        forall|i: int, j: int|
            0 <= i < j < final(networks)@.len() ==> lex_le(
                final(networks)@[i].name@,
                final(networks)@[j].name@,
            ),
{
    networks.sort_by(|a, b| a.name.cmp(&b.name));
}

/// Relies on `slice::sort_by` with `String::cmp` on the name: a permutation
/// of the volumes ordered by name.
#[verifier::external_body]
fn sort_volumes_by_name(volumes: &mut Vec<VolumeInfo>)
    ensures
        final(volumes)@.len() == old(volumes)@.len(),
        final(volumes)@.to_multiset() == old(volumes)@.to_multiset(),
        forall|i: int, j: int|
            0 <= i < j < final(volumes)@.len() ==> lex_le(
                final(volumes)@[i].name@,
                final(volumes)@[j].name@,
            ),
{
    volumes.sort_by(|a, b| a.name.cmp(&b.name));
}

/// An image as the daemon lists it.
pub struct ImageRecord {
    pub id: String,
    pub repo_tags: Vec<String>,
    pub created: i64,
    pub size: i64,
    pub containers: i64,
}

pub open spec fn image_from_record(m: ImageInfo, rec: ImageRecord) -> bool {
    &&& m.id == rec.id
    &&& (m.repository@, m.tag@) == repo_and_tag(views(rec.repo_tags@))
    &&& m.created == rec.created
    &&& m.size == rec.size
    &&& m.containers == rec.containers
    &&& m.in_use == (rec.containers > 0)
}

/// The images' records, ordered by repository.
pub fn list_images(images: Vec<ImageRecord>) -> (r: Vec<ImageInfo>)
    ensures
        r@.len() == images@.len(),
        exists|m: Seq<ImageInfo>|
            m.len() == images@.len() && (forall|i: int|
                0 <= i < m.len() ==> image_from_record(#[trigger] m[i], images@[i]))
                && r@.to_multiset() == #[trigger] m.to_multiset(),
        forall|i: int, j: int|
            0 <= i < j < r@.len() ==> lex_le(r@[i].repository@, r@[j].repository@),
{
    let ghost all = images@;
    let total = images.len();
    let mut rest = images;
    let mut taken: Vec<ImageRecord> = Vec::new();
    while rest.len() > 0
        invariant
            taken@.len() + rest@.len() == all.len(),
            forall|j: int| 0 <= j < rest@.len() ==> #[trigger] rest@[j] == all[j],
            forall|j: int|
                0 <= j < taken@.len() ==> #[trigger] taken@[j] == all[all.len() - 1 - j],
        decreases rest@.len(),
    {
        let rec = rest.pop().unwrap();
        taken.push(rec);
    }
    let mut out: Vec<ImageInfo> = Vec::new();
    while taken.len() > 0
        invariant
            total == all.len(),
            out@.len() + taken@.len() == all.len(),
            forall|j: int|
                0 <= j < taken@.len() ==> #[trigger] taken@[j] == all[all.len() - 1 - j],
            forall|j: int| 0 <= j < out@.len() ==> image_from_record(#[trigger] out@[j], all[j]),
        decreases taken@.len(),
    {
        let rec = taken.pop().unwrap();
        let ImageRecord { id, repo_tags, created, size, containers } = rec;
        out.push(image_info(id, &repo_tags, created, size, containers));
    }
    let ghost unsorted = out@;
    sort_images_by_repository(&mut out);
    proof {
        assert(unsorted.len() == all.len());
    }
    out
}

/// The volumes' records, each with the number of mounts using it, ordered by name.
pub fn list_volumes(volumes: Vec<VolumeRecord>, mounts: &Vec<MountRecord>) -> (r: Vec<VolumeInfo>)
    ensures
        r@.len() == volumes@.len(),
        exists|m: Seq<VolumeInfo>|
            m.len() == volumes@.len() && (forall|i: int|
                0 <= i < m.len() ==> volume_from_record(#[trigger] m[i], volumes@[i], mounts@))
                && r@.to_multiset() == #[trigger] m.to_multiset(),
        forall|i: int, j: int| 0 <= i < j < r@.len() ==> lex_le(r@[i].name@, r@[j].name@),
{
    let ghost all = volumes@;
    let total = volumes.len();
    let mut rest = volumes;
    let mut taken: Vec<VolumeRecord> = Vec::new();
    while rest.len() > 0
        invariant
            taken@.len() + rest@.len() == all.len(),
            forall|j: int| 0 <= j < rest@.len() ==> #[trigger] rest@[j] == all[j],
            forall|j: int|
                0 <= j < taken@.len() ==> #[trigger] taken@[j] == all[all.len() - 1 - j],
        decreases rest@.len(),
    {
        let rec = rest.pop().unwrap();
        taken.push(rec);
    }
    let mut out: Vec<VolumeInfo> = Vec::new();
    while taken.len() > 0
        invariant
            total == all.len(),
            out@.len() + taken@.len() == all.len(),
            forall|j: int|
                0 <= j < taken@.len() ==> #[trigger] taken@[j] == all[all.len() - 1 - j],
            forall|j: int|
                0 <= j < out@.len() ==> volume_from_record(#[trigger] out@[j], all[j], mounts@),
        decreases taken@.len(),
    {
        let rec = taken.pop().unwrap();
        out.push(volume_info(rec, mounts));
    }
    let ghost unsorted = out@;
    sort_volumes_by_name(&mut out);
    proof {
        assert(unsorted.len() == all.len());
    }
    out
}

pub open spec fn volume_from_record(v: VolumeInfo, rec: VolumeRecord, mounts: Seq<MountRecord>) -> bool {
    &&& v.name == rec.name
    &&& v.driver == rec.driver
    &&& v.mountpoint == rec.mountpoint
    &&& v.created == rec.created
    &&& v.containers_count == clamp_count(volume_mounts(mounts, rec.name@))
}

// ---------------------------------------------------------------- creation plan

/// The container side of a published port, `port/protocol`.
pub open spec fn port_key(p: PortMapping) -> Seq<char> {
    decimal(p.container_port as nat) + "/"@ + p.protocol@
}

/// An environment entry, `key=value`.
pub open spec fn env_entry(e: EnvVar) -> Seq<char> {
    e.key@ + "="@ + e.value@
}

/// The restart policy named `policy`; any other name means none.
pub open spec fn restart_kind(policy: Seq<char>) -> RestartPolicyKind {
    if policy == "always"@ {
        RestartPolicyKind::Always
    } else if policy == "unless-stopped"@ {
        RestartPolicyKind::UnlessStopped
    } else if policy == "on-failure"@ {
        RestartPolicyKind::OnFailure
    } else {
        RestartPolicyKind::Never
    }
}

/// The plan for creating the container `request` describes: one binding per
/// port mapping (host side on all interfaces), one `key=value` entry per
/// variable, the restart policy (three retries on failure), and the custom
/// command split into words.
pub fn container_plan(request: &CreateContainerRequest) -> (r: ContainerPlan)
    ensures
        r.port_bindings@.len() == request.ports@.len(),
        forall|i: int|
            0 <= i < r.port_bindings@.len() ==> (#[trigger] r.port_bindings@[i]).container_port_key@
                == port_key(request.ports@[i]) && r.port_bindings@[i].host_port@ == decimal(
                request.ports@[i].host_port as nat,
            ),
        views(r.env@) == request.environment@.map_values(|e: EnvVar| env_entry(e)),
        r.restart == restart_kind(request.restart_policy@),
        r.maximum_retry_count == (if r.restart is OnFailure {
            Some(3i64)
        } else {
            None
        }),
        match request.command {
            Some(c) => r.cmd is Some && views(r.cmd->0@) == words(c@),
            None => r.cmd is None,
        },
{
    let mut port_bindings: Vec<PortBindingPlan> = Vec::new();
    let mut i: usize = 0;
    while i < request.ports.len()
        invariant
            i <= request.ports@.len(),
            port_bindings@.len() == i,
            forall|j: int|
                0 <= j < i ==> (#[trigger] port_bindings@[j]).container_port_key@ == port_key(
                    request.ports@[j],
                ) && port_bindings@[j].host_port@ == decimal(request.ports@[j].host_port as nat),
        decreases request.ports@.len() - i,
    {
        let p = &request.ports[i];
        let mut key = decimal_string(p.container_port as u64);
        key.append("/");
        key.append(p.protocol.as_str());
        port_bindings.push(
            PortBindingPlan { container_port_key: key, host_port: decimal_string(p.host_port as u64) },
        );
        i = i + 1;
    }
    let mut env: Vec<String> = Vec::new();
    let mut i: usize = 0;
    while i < request.environment.len()
        invariant
            i <= request.environment@.len(),
            views(env@) == request.environment@.subrange(0, i as int).map_values(
                |e: EnvVar| env_entry(e),
            ),
        decreases request.environment@.len() - i,
    {
        let e = &request.environment[i];
        let mut entry = e.key.clone();
        entry.append("=");
        entry.append(e.value.as_str());
        let ghost before = env@;
        env.push(entry);
        proof {
            assert(entry@ =~= env_entry(request.environment@[i as int]));
            assert(views(env@) =~= views(before).push(entry@));
            assert(request.environment@.subrange(0, i + 1).map_values(|e: EnvVar| env_entry(e))
                =~= request.environment@.subrange(0, i as int).map_values(|e: EnvVar| env_entry(e)).push(
                env_entry(request.environment@[i as int]),
            ));
            assert(views(env@) =~= request.environment@.subrange(0, i + 1).map_values(
                |e: EnvVar| env_entry(e),
            ));
        }
        i = i + 1;
    }
    proof {
        assert(request.environment@.subrange(0, request.environment@.len() as int)
            =~= request.environment@);
    }
    let policy = &request.restart_policy;
    let restart = if *policy == String::from_str("always") {
        RestartPolicyKind::Always
    } else if *policy == String::from_str("unless-stopped") {
        RestartPolicyKind::UnlessStopped
    } else if *policy == String::from_str("on-failure") {
        RestartPolicyKind::OnFailure
    } else {
        RestartPolicyKind::Never
    };
    let maximum_retry_count = match restart {
        RestartPolicyKind::OnFailure => Some(3i64),
        _ => None,
    };
    let cmd = match &request.command {
        Some(c) => Some(words_str(c.as_str())),
        None => None,
    };
    ContainerPlan { port_bindings, env, restart, maximum_retry_count, cmd }
}

// ---------------------------------------------------------------- logs

/// Relies on chrono: `DateTime<Utc>`'s `FromStr` (a relaxed RFC 3339 reader),
/// `with_timezone(&Local)` and `format("%H:%M:%S")`. The result depends on the
/// machine's time zone, so nothing is promised of it.
#[verifier::external_body]
fn local_clock_time(timestamp: &str) -> (r: Option<String>) {
    match timestamp.parse::<chrono::DateTime<chrono::Utc>>() {
        Ok(t) => Some(t.with_timezone(&chrono::Local).format("%H:%M:%S").to_string()),
        Err(_) => None,
    }
}

/// The message part of a timestamped log line: what follows the 30-character
/// timestamp and the separating space.
pub open spec fn log_message(line: Seq<char>) -> Seq<char> {
    if line.len() > 31 {
        line.subrange(31, line.len() as int)
    } else {
        Seq::empty()
    }
}

/// A log line as shown: lines longer than 30 characters start with a
/// timestamp, shown as `[time] message` when it could be read as one (its
/// local clock time being `time`) and as the bare message otherwise; shorter
/// lines are shown as they are.
pub open spec fn shown_log_line(line: Seq<char>, time: Option<Seq<char>>) -> Seq<char> {
    if line.len() > 30 {
        match time {
            Some(t) => "["@ + t + "] "@ + log_message(line),
            None => log_message(line),
        }
    } else {
        line
    }
}

pub open spec fn option_view(t: Option<String>) -> Option<Seq<char>> {
    match t {
        Some(s) => Some(s@),
        None => None,
    }
}

/// The line `line` as shown, given the local clock time its timestamp reads
/// as (`None` when it is no timestamp).
pub fn show_log_line(line: &str, time: Option<String>) -> (r: String)
    ensures
        r@ == shown_log_line(line@, option_view(time)),
{
    let n = line.unicode_len();
    if n <= 30 {
        return String::from_str(line);
    }
    let message = if n > 31 {
        line.substring_char(31, n)
    } else {
        ""
    };
    proof {
        reveal_strlit("");
        assert(""@ =~= Seq::<char>::empty());
    }
    match time {
        Some(t) => {
            let mut out = String::from_str("[");
            out.append(t.as_str());
            out.append("] ");
            out.append(message);
            out
        },
        None => String::from_str(message),
    }
}

/// The line `line` as shown, reading its timestamp in the local time zone.
pub fn format_log_line(line: &str) -> (r: String)
    ensures
        exists|t: Option<Seq<char>>| r@ == shown_log_line(line@, t),
{
    let n = line.unicode_len();
    let time = if n > 30 {
        local_clock_time(line.substring_char(0, 30))
    } else {
        None
    };
    let r = show_log_line(line, time);
    proof {
        assert(r@ == shown_log_line(line@, option_view(time)));
    }
    r
}

/// The shown lines joined with newlines, or a notice when that is blank.
pub open spec fn shown_logs(lines: Seq<Seq<char>>, times: Seq<Option<Seq<char>>>) -> Seq<char> {
    let joined = join(Seq::new(lines.len(), |i: int| shown_log_line(lines[i], times[i])), "\n"@);
    if trim(joined).len() == 0 {
        "Nenhum log disponível"@
    } else {
        joined
    }
}

/// The container's raw log text as shown: each line formatted with
/// [`format_log_line`], joined with newlines; a notice when nothing is left.
pub fn format_logs(raw: &str) -> (r: String)
    ensures
        exists|times: Seq<Option<Seq<char>>>|
            times.len() == lines_of(raw@).len() && r@ == shown_logs(lines_of(raw@), times),
{
    let ls = lines_str(raw);
    let ghost lv = views(ls@);
    let ghost mut times: Seq<Option<Seq<char>>> = Seq::empty();
    let mut joined = String::new();
    let mut i: usize = 0;
    while i < ls.len()
        invariant
            lv == views(ls@),
            lv == lines_of(raw@),
            i <= ls@.len(),
            times.len() == i,
            joined@ == join(
                Seq::new(i as nat, |j: int| shown_log_line(lv[j], times[j])),
                "\n"@,
            ),
        decreases ls@.len() - i,
    {
        let shown = format_log_line(ls[i].as_str());
        let ghost t = choose|t: Option<Seq<char>>| shown@ == shown_log_line(lv[i as int], t);
        let ghost old_times = times;
        let ghost old_joined = joined@;
        if i > 0 {
            joined.append("\n");
        }
        joined.append(shown.as_str());
        proof {
            times = times.push(t);
            let prev = Seq::new(i as nat, |j: int| shown_log_line(lv[j], old_times[j]));
            let next = Seq::new((i + 1) as nat, |j: int| shown_log_line(lv[j], times[j]));
            assert(next.drop_last() =~= prev);
            assert(next.last() == shown@);
            if i == 0 {
                assert(old_joined =~= Seq::<char>::empty());
                assert(joined@ =~= join(next, "\n"@));
            } else {
                assert(joined@ =~= join(next, "\n"@));
            }
        }
        i = i + 1;
    }
    let blank = trim_str(joined.as_str()).as_str().unicode_len() == 0;
    let r = if blank {
        String::from_str("Nenhum log disponível")
    } else {
        joined
    };
    proof {
        assert(Seq::new(lv.len(), |j: int| shown_log_line(lv[j], times[j])) =~= Seq::new(
            i as nat,
            |j: int| shown_log_line(lv[j], times[j]),
        ));
        assert(r@ == shown_logs(lv, times));
    }
    r
}

// ---------------------------------------------------------------- status and usage

/// One container's counter snapshot, keyed by its identifier.
pub struct ContainerSample {
    pub id: String,
    pub stats: ContainerStatsSnapshot,
}

/// A container's utilisation in `PERCENT_SCALE` units, saturating.
pub open spec fn scaled_percent(c: CpuCalculate) -> u128 {
    if c.spec_percent_scaled() > u128::MAX {
        u128::MAX
    } else {
        c.spec_percent_scaled() as u128
    }
}

pub open spec fn sat_add64(a: u64, b: u64) -> u64 {
    if a + b > u64::MAX {
        u64::MAX
    } else {
        (a + b) as u64
    }
}

pub open spec fn sat_add128(a: u128, b: u128) -> u128 {
    if a + b > u128::MAX {
        u128::MAX
    } else {
        (a + b) as u128
    }
}

/// The totals after adding one container's sample (sums saturate).
pub open spec fn usage_add(
    u: DockerSystemUsage,
    c: CpuCalculate,
    memory: u64,
    net: (u64, u64),
    blk: (u64, u64),
) -> DockerSystemUsage {
    DockerSystemUsage {
        cpu_online: c.online_cpus,
        cpu_usage_scaled: sat_add128(u.cpu_usage_scaled, scaled_percent(c)),
        memory_usage: sat_add64(u.memory_usage, memory),
        memory_limit: u.memory_limit,
        network_rx_bytes: sat_add64(u.network_rx_bytes, net.0),
        network_tx_bytes: sat_add64(u.network_tx_bytes, net.1),
        block_read_bytes: sat_add64(u.block_read_bytes, blk.0),
        block_write_bytes: sat_add64(u.block_write_bytes, blk.1),
    }
}

/// Sampling `samples` in order at time `now`, starting from `cache` and
/// totals `init`: the cache and totals afterwards.
pub open spec fn usage_fold(
    cache: Map<Seq<char>, PreviousStats>,
    samples: Seq<ContainerSample>,
    now: u64,
    init: DockerSystemUsage,
) -> (Map<Seq<char>, PreviousStats>, DockerSystemUsage)
    decreases samples.len(),
{
    if samples.len() == 0 {
        (cache, init)
    } else {
        let (c1, u1) = usage_fold(cache, samples.drop_last(), now, init);
        let s = samples.last();
        (
            cache_after(c1, s.id@, s.stats, now),
            usage_add(
                u1,
                cpu_result(c1, s.id@, s.stats, now),
                or_zero(s.stats.memory_usage),
                network_totals(s.stats),
                block_totals(s.stats),
            ),
        )
    }
}

/// Totals before any sample: zero, with the given memory limit.
pub open spec fn empty_usage(memory_limit: u64) -> DockerSystemUsage {
    DockerSystemUsage {
        cpu_online: 0,
        cpu_usage_scaled: 0,
        memory_usage: 0,
        memory_limit,
        network_rx_bytes: 0,
        network_tx_bytes: 0,
        block_read_bytes: 0,
        block_write_bytes: 0,
    }
}

impl DockerManager {
    /// The daemon's status from whether `docker --version` succeeded and what
    /// `docker info` reported (`None` when it could not be run).
    pub fn check_docker_status(&self, version_succeeded: bool, info: &Option<ProcessOutput>) -> (r:
        DockerStatus)
        ensures
            r == status_of(version_succeeded, *info),
    {
        if !version_succeeded {
            return DockerStatus::NotInstalled;
        }
        match info {
            None => DockerStatus::PermissionDenied,
            Some(o) => {
                if o.success {
                    return DockerStatus::Running;
                }
                let e = o.stderr.as_str();
                if contains_str(e, "permission denied") || contains_str(e, "Permission denied")
                    || contains_str(e, "dial unix") || contains_str(e, "connect: permission denied")
                    || contains_str(e, "Got permission denied while trying to connect")
                    || contains_str(o.stdout.as_str(), "permission denied") {
                    DockerStatus::PermissionDenied
                } else if contains_str(e, "Cannot connect to the Docker daemon") || contains_str(
                    e,
                    "Is the docker daemon running?",
                ) || contains_str(e, "docker daemon is not running") {
                    DockerStatus::NotRunning
                } else {
                    DockerStatus::PermissionDenied
                }
            },
        }
    }

    /// Totals over the running containers' samples taken at `current_time`:
    /// each is passed through the metrics engine in order (updating its
    /// cache), and the CPU figures, memory use and I/O counters are summed.
    pub fn get_docker_system_usage(
        &mut self,
        samples: &Vec<ContainerSample>,
        memory_limit: u64,
        current_time: u64,
    ) -> (r: DockerSystemUsage)
        requires
            old(self).wf(),
        ensures
            final(self).wf(),
            (final(self).cache(), r) == usage_fold(
                old(self).cache(),
                samples@,
                current_time,
                empty_usage(memory_limit),
            ),
    {
        let mut usage = DockerSystemUsage {
            cpu_online: 0,
            cpu_usage_scaled: 0,
            memory_usage: 0,
            memory_limit,
            network_rx_bytes: 0,
            network_tx_bytes: 0,
            block_read_bytes: 0,
            block_write_bytes: 0,
        };
        let ghost start = self.cache();
        let mut i: usize = 0;
        proof {
            assert(samples@.subrange(0, 0) =~= Seq::<ContainerSample>::empty());
        }
        while i < samples.len()
            invariant
                self.wf(),
                i <= samples@.len(),
                (self.cache(), usage) == usage_fold(
                    start,
                    samples@.subrange(0, i as int),
                    current_time,
                    empty_usage(memory_limit),
                ),
            decreases samples@.len() - i,
        {
            let s = &samples[i];
            proof {
                assert(samples@.subrange(0, i + 1).drop_last() =~= samples@.subrange(0, i as int));
                assert(samples@.subrange(0, i + 1).last() == *s);
            }
            let cpu = self.calculate_cpu_percentage_with_cache(s.id.as_str(), &s.stats, current_time);
            let memory = match s.stats.memory_usage {
                Some(m) => m,
                None => 0,
            };
            let (rx, tx) = self.get_network_stats(&s.stats);
            let (read, write) = self.get_block_stats(&s.stats);
            let pct = cpu.cpu_percent_scaled();
            usage = DockerSystemUsage {
                cpu_online: cpu.online_cpus,
                cpu_usage_scaled: usage.cpu_usage_scaled.saturating_add(pct),
                memory_usage: usage.memory_usage.saturating_add(memory),
                memory_limit: usage.memory_limit,
                network_rx_bytes: usage.network_rx_bytes.saturating_add(rx),
                network_tx_bytes: usage.network_tx_bytes.saturating_add(tx),
                block_read_bytes: usage.block_read_bytes.saturating_add(read),
                block_write_bytes: usage.block_write_bytes.saturating_add(write),
            };
            i = i + 1;
        }
        proof {
            assert(samples@.subrange(0, samples@.len() as int) =~= samples@);
        }
        usage
    }
}

// ---------------------------------------------------------------- host memory

/// `s` begins with `p`.
pub open spec fn starts_with(s: Seq<char>, p: Seq<char>) -> bool {
    p.len() <= s.len() && s.subrange(0, p.len() as int) == p
}

/// The kilobytes that a `MemTotal:` line of `/proc/meminfo` gives in its
/// second word, if it is such a line.
pub open spec fn mem_total_kb(line: Seq<char>) -> Option<u64> {
    if starts_with(line, "MemTotal:"@) && words(line).len() > 1 {
        u64_of(words(line)[1])
    } else {
        None
    }
}

/// The total memory in bytes that the first readable `MemTotal:` line of
/// `lines` gives (saturating), or zero when there is none.
pub open spec fn mem_total_of(lines: Seq<Seq<char>>) -> u64
    decreases lines.len(),
{
    if lines.len() == 0 {
        0
    } else {
        match mem_total_kb(lines[0]) {
            Some(kb) => if kb * 1024 > u64::MAX {
                u64::MAX
            } else {
                (kb * 1024) as u64
            },
            None => mem_total_of(lines.drop_first()),
        }
    }
}

/// The host's total memory in bytes, from the text of `/proc/meminfo`.
pub fn mem_total_bytes(meminfo: &str) -> (r: u64)
    ensures
        r == mem_total_of(lines_of(meminfo@)),
{
    let ls = lines_str(meminfo);
    let ghost lv = views(ls@);
    let prefix = String::from_str("MemTotal:");
    let mut i: usize = 0;
    proof {
        assert(lv.subrange(0, lv.len() as int) =~= lv);
    }
    while i < ls.len()
        invariant
            lv == views(ls@),
            lv == lines_of(meminfo@),
            i <= ls@.len(),
            prefix@ == "MemTotal:"@,
            mem_total_of(lv) == mem_total_of(lv.subrange(i as int, lv.len() as int)),
        decreases ls@.len() - i,
    {
        let line = ls[i].as_str();
        let ghost rest = lv.subrange(i as int, lv.len() as int);
        proof {
            assert(rest[0] == line@);
            assert(rest.drop_first() =~= lv.subrange(i + 1, lv.len() as int));
        }
        let p = prefix.as_str();
        let pn = p.unicode_len();
        let ln = line.unicode_len();
        let is_total = pn <= ln && String::from_str(line.substring_char(0, pn)) == prefix;
        if is_total {
            let w = words_str(line);
            if w.len() > 1 {
                match parse_u64(w[1].as_str()) {
                    Some(kb) => {
                        return match kb.checked_mul(1024) {
                            Some(b) => b,
                            None => u64::MAX,
                        };
                    },
                    None => {},
                }
            }
        }
        i = i + 1;
    }
    proof {
        assert(lv.subrange(i as int, lv.len() as int) =~= Seq::<Seq<char>>::empty());
    }
    0
}

} // verus!
