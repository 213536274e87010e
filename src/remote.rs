//! Inventory over a remote shell: the commands sent to the remote `docker`
//! CLI and the parsing of the `|`-separated tables it prints.
use vstd::prelude::*;
use crate::text::{
    trim, trim_str, split_on, split_str, lines_of, lines_str, views,
    contains, contains_str, lowercase_of, to_lowercase, i32_or_zero, parse_i32_or_zero, decimal,
    decimal_string,
};

verus! {

pub struct SshContainerInfo {
    pub id: String,
    pub name: String,
    pub image: String,
    pub state: String,
    pub status: String,
    pub ports: Vec<String>,
    pub created: String,
}

pub struct SshImageInfo {
    pub id: String,
    pub repository: String,
    pub tag: String,
    pub created: String,
    pub size: String,
}

pub struct SshNetworkInfo {
    pub id: String,
    pub name: String,
    pub driver: String,
    pub scope: String,
}

pub struct SshVolumeInfo {
    pub name: String,
    pub driver: String,
    pub mountpoint: String,
}

/// A line holding only whitespace.
pub open spec fn is_blank(l: Seq<char>) -> bool {
    trim(l).len() == 0
}

/// The `|`-separated cells of the non-blank lines of `ls` that have at least
/// `min` cells.
pub open spec fn data_rows(ls: Seq<Seq<char>>, min: nat) -> Seq<Seq<Seq<char>>>
    decreases ls.len(),
{
    if ls.len() == 0 {
        Seq::empty()
    } else {
        let pre = data_rows(ls.drop_last(), min);
        let cells = split_on(ls.last(), '|');
        if !is_blank(ls.last()) && cells.len() >= min {
            pre.push(cells)
        } else {
            pre
        }
    }
}

/// The rows of a table printed with a header line: every line after the
/// first that is not blank and has at least `min` cells, split at `|`.
pub open spec fn table_rows(output: Seq<char>, min: nat) -> Seq<Seq<Seq<char>>> {
    let ls = lines_of(output);
    if ls.len() == 0 {
        Seq::empty()
    } else {
        data_rows(ls.drop_first(), min)
    }
}

/// Cell `i` of a row, trimmed; empty when the row is shorter.
pub open spec fn cell(row: Seq<Seq<char>>, i: int) -> Seq<char> {
    if 0 <= i < row.len() {
        trim(row[i])
    } else {
        Seq::empty()
    }
}

/// The trimmed, non-empty items of a `,`-separated list.
pub open spec fn list_items(pieces: Seq<Seq<char>>) -> Seq<Seq<char>>
    decreases pieces.len(),
{
    if pieces.len() == 0 {
        Seq::empty()
    } else {
        let pre = list_items(pieces.drop_last());
        if trim(pieces.last()).len() > 0 {
            pre.push(trim(pieces.last()))
        } else {
            pre
        }
    }
}

/// The ports column: its comma-separated items, trimmed, empty ones left out.
pub open spec fn port_items(column: Seq<char>) -> Seq<Seq<char>> {
    list_items(split_on(trim(column), ','))
}

pub open spec fn container_from_row(c: SshContainerInfo, row: Seq<Seq<char>>) -> bool {
    &&& c.id@ == cell(row, 0)
    &&& c.name@ == cell(row, 1)
    &&& c.image@ == cell(row, 2)
    &&& c.state@ == cell(row, 3)
    &&& c.status@ == cell(row, 4)
    &&& views(c.ports@) == port_items(row[5])
    &&& c.created@ == cell(row, 6)
}

pub open spec fn image_from_row(m: SshImageInfo, row: Seq<Seq<char>>) -> bool {
    &&& m.id@ == cell(row, 0)
    &&& m.repository@ == cell(row, 1)
    &&& m.tag@ == cell(row, 2)
    &&& m.created@ == cell(row, 3)
    &&& m.size@ == cell(row, 4)
}

pub open spec fn volume_from_row(v: SshVolumeInfo, row: Seq<Seq<char>>) -> bool {
    &&& v.name@ == cell(row, 0)
    &&& v.driver@ == cell(row, 1)
    &&& v.mountpoint@ == cell(row, 2)
}

/// The built-in networks every daemon has.
pub open spec fn is_system_network(name: Seq<char>) -> bool {
    name == seq!['b', 'r', 'i', 'd', 'g', 'e'] || name == seq!['h', 'o', 's', 't'] || name
        == seq!['n', 'o', 'n', 'e']
}

/// The rows of a network table that describe user-defined networks.
pub open spec fn user_network_rows(rows: Seq<Seq<Seq<char>>>) -> Seq<Seq<Seq<char>>>
    decreases rows.len(),
{
    if rows.len() == 0 {
        Seq::empty()
    } else {
        let pre = user_network_rows(rows.drop_last());
        if is_system_network(cell(rows.last(), 1)) {
            pre
        } else {
            pre.push(rows.last())
        }
    }
}

pub open spec fn network_from_row(n: SshNetworkInfo, row: Seq<Seq<char>>) -> bool {
    &&& n.id@ == cell(row, 0)
    &&& n.name@ == cell(row, 1)
    &&& n.driver@ == cell(row, 2)
    &&& n.scope@ == cell(row, 3)
}

pub open spec fn row_views(r: Seq<Vec<String>>) -> Seq<Seq<Seq<char>>> {
    r.map_values(|v: Vec<String>| views(v@))
}

/// The rows of a table printed with a header line (see [`table_rows`]).
pub fn parse_table(output: &str, min_fields: usize) -> (r: Vec<Vec<String>>)
    ensures
        row_views(r@) == table_rows(output@, min_fields as nat),
{
    let ls = lines_str(output);
    let ghost lv = views(ls@);
    let mut rows: Vec<Vec<String>> = Vec::new();
    if ls.len() == 0 {
        proof {
            assert(row_views(rows@) =~= table_rows(output@, min_fields as nat));
        }
        return rows;
    }
    let mut i: usize = 1;
    proof {
        assert(lv.subrange(1, 1) =~= Seq::<Seq<char>>::empty());
        assert(row_views(rows@) =~= data_rows(lv.subrange(1, 1), min_fields as nat));
    }
    while i < ls.len()
        invariant
            lv == views(ls@),
            lv == lines_of(output@),
            1 <= i <= ls@.len(),
            row_views(rows@) == data_rows(lv.subrange(1, i as int), min_fields as nat),
        decreases ls@.len() - i,
    {
        let line = ls[i].as_str();
        let cells = split_str(line, '|');
        let blank = trim_str(line).as_str().unicode_len() == 0;
        proof {
            let sub = lv.subrange(1, i + 1);
            assert(sub.drop_last() =~= lv.subrange(1, i as int));
            assert(sub.last() == line@);
        }
        if !blank && cells.len() >= min_fields {
            let ghost before = rows@;
            rows.push(cells);
            proof {
                assert(row_views(rows@) =~= row_views(before).push(views(cells@)));
            }
        }
        i = i + 1;
    }
    proof {
        assert(lv.subrange(1, lv.len() as int) =~= lv.drop_first());
    }
    rows
}

fn cell_at(row: &Vec<String>, i: usize) -> (r: String)
    ensures
        r@ == cell(views(row@), i as int),
{
    if i < row.len() {
        trim_str(row[i].as_str())
    } else {
        String::new()
    }
}

/// The trimmed, non-empty items of the `,`-separated ports column.
pub fn parse_port_items(column: &str) -> (r: Vec<String>)
    ensures
        views(r@) == port_items(column@),
{
    let t = trim_str(column);
    let pieces = split_str(t.as_str(), ',');
    let ghost pv = views(pieces@);
    let mut out: Vec<String> = Vec::new();
    let mut i: usize = 0;
    proof {
        assert(views(out@) =~= list_items(pv.subrange(0, 0)));
    }
    while i < pieces.len()
        invariant
            pv == views(pieces@),
            i <= pieces@.len(),
            views(out@) == list_items(pv.subrange(0, i as int)),
        decreases pieces@.len() - i,
    {
        let item = trim_str(pieces[i].as_str());
        proof {
            assert(pv.subrange(0, i + 1).drop_last() =~= pv.subrange(0, i as int));
        }
        if item.as_str().unicode_len() > 0 {
            let ghost before = out@;
            out.push(item);
            proof {
                assert(views(out@) =~= views(before).push(item@));
            }
        }
        i = i + 1;
    }
    proof {
        assert(pv.subrange(0, pv.len() as int) =~= pv);
    }
    out
}

/// The containers listed by `docker ps -a` printed as
/// `ID|Names|Image|State|Status|Ports|CreatedAt` under a header line.
pub fn parse_containers(output: &str) -> (r: Vec<SshContainerInfo>)
    ensures
        r@.len() == table_rows(output@, 6).len(),
        forall|i: int|
            0 <= i < r@.len() ==> container_from_row(#[trigger] r@[i], table_rows(output@, 6)[i]),
{
    let rows = parse_table(output, 6);
    let ghost rv = row_views(rows@);
    let mut out: Vec<SshContainerInfo> = Vec::new();
    let mut i: usize = 0;
    while i < rows.len()
        invariant
            rv == row_views(rows@),
            rv == table_rows(output@, 6),
            i <= rows@.len(),
            out@.len() == i,
            forall|j: int| 0 <= j < i ==> container_from_row(#[trigger] out@[j], rv[j]),
        decreases rows@.len() - i,
    {
        let row = &rows[i];
        proof {
            assert(rv[i as int] == views(row@));
            lemma_table_row_len(output@, 6, i as int);
        }
        let ports = parse_port_items(row[5].as_str());
        let c = SshContainerInfo {
            id: cell_at(row, 0),
            name: cell_at(row, 1),
            image: cell_at(row, 2),
            state: cell_at(row, 3),
            status: cell_at(row, 4),
            ports,
            created: cell_at(row, 6),
        };
        out.push(c);
        i = i + 1;
    }
    out
}

proof fn lemma_data_rows_len(ls: Seq<Seq<char>>, min: nat, i: int)
    requires
        0 <= i < data_rows(ls, min).len(),
    ensures
        data_rows(ls, min)[i].len() >= min,
    decreases ls.len(),
{
    let pre = data_rows(ls.drop_last(), min);
    if i < pre.len() {
        lemma_data_rows_len(ls.drop_last(), min, i);
    }
}

/// Every row of a table has at least the requested number of cells.
pub proof fn lemma_table_row_len(output: Seq<char>, min: nat, i: int)
    requires
        0 <= i < table_rows(output, min).len(),
    ensures
        table_rows(output, min)[i].len() >= min,
{
    let ls = lines_of(output);
    lemma_data_rows_len(ls.drop_first(), min, i);
}

/// The images listed by `docker images` printed as
/// `ID|Repository|Tag|CreatedAt|Size` under a header line.
pub fn parse_images(output: &str) -> (r: Vec<SshImageInfo>)
    ensures
        r@.len() == table_rows(output@, 5).len(),
        forall|i: int|
            0 <= i < r@.len() ==> image_from_row(#[trigger] r@[i], table_rows(output@, 5)[i]),
{
    let rows = parse_table(output, 5);
    let ghost rv = row_views(rows@);
    let mut out: Vec<SshImageInfo> = Vec::new();
    let mut i: usize = 0;
    while i < rows.len()
        invariant
            rv == row_views(rows@),
            rv == table_rows(output@, 5),
            i <= rows@.len(),
            out@.len() == i,
            forall|j: int| 0 <= j < i ==> image_from_row(#[trigger] out@[j], rv[j]),
        decreases rows@.len() - i,
    {
        let row = &rows[i];
        proof {
            assert(rv[i as int] == views(row@));
        }
        out.push(
            SshImageInfo {
                id: cell_at(row, 0),
                repository: cell_at(row, 1),
                tag: cell_at(row, 2),
                created: cell_at(row, 3),
                size: cell_at(row, 4),
            },
        );
        i = i + 1;
    }
    out
}

/// The volumes listed by `docker volume ls` printed as
/// `Name|Driver|Mountpoint` under a header line.
pub fn parse_volumes(output: &str) -> (r: Vec<SshVolumeInfo>)
    ensures
        r@.len() == table_rows(output@, 3).len(),
        forall|i: int|
            0 <= i < r@.len() ==> volume_from_row(#[trigger] r@[i], table_rows(output@, 3)[i]),
{
    let rows = parse_table(output, 3);
    let ghost rv = row_views(rows@);
    let mut out: Vec<SshVolumeInfo> = Vec::new();
    let mut i: usize = 0;
    while i < rows.len()
        invariant
            rv == row_views(rows@),
            rv == table_rows(output@, 3),
            i <= rows@.len(),
            out@.len() == i,
            forall|j: int| 0 <= j < i ==> volume_from_row(#[trigger] out@[j], rv[j]),
        decreases rows@.len() - i,
    {
        let row = &rows[i];
        proof {
            assert(rv[i as int] == views(row@));
        }
        out.push(
            SshVolumeInfo {
                name: cell_at(row, 0),
                driver: cell_at(row, 1),
                mountpoint: cell_at(row, 2),
            },
        );
        i = i + 1;
    }
    out
}

/// Whether `name` is one of the built-in networks `bridge`, `host`, `none`.
pub fn system_network(name: &str) -> (r: bool)
    ensures
        r == is_system_network(name@),
{
    let n = String::from_str(name);
    let bridge = String::from_str("bridge");
    let host = String::from_str("host");
    let none = String::from_str("none");
    proof {
        reveal_strlit("bridge");
        reveal_strlit("host");
        reveal_strlit("none");
        assert(bridge@ =~= seq!['b', 'r', 'i', 'd', 'g', 'e']);
        assert(host@ =~= seq!['h', 'o', 's', 't']);
        assert(none@ =~= seq!['n', 'o', 'n', 'e']);
    }
    n == bridge || n == host || n == none
}

/// The user-defined networks listed by `docker network ls` printed as
/// `ID|Name|Driver|Scope` under a header line; `bridge`, `host` and `none`
/// are left out.
pub fn parse_networks(output: &str) -> (r: Vec<SshNetworkInfo>)
    ensures
        r@.len() == user_network_rows(table_rows(output@, 4)).len(),
        forall|i: int|
            0 <= i < r@.len() ==> network_from_row(
                #[trigger] r@[i],
                user_network_rows(table_rows(output@, 4))[i],
            ),
{
    let rows = parse_table(output, 4);
    let ghost rv = row_views(rows@);
    let mut out: Vec<SshNetworkInfo> = Vec::new();
    let mut i: usize = 0;
    proof {
        assert(rv.subrange(0, 0) =~= Seq::<Seq<Seq<char>>>::empty());
    }
    while i < rows.len()
        invariant
            rv == row_views(rows@),
            rv == table_rows(output@, 4),
            i <= rows@.len(),
            out@.len() == user_network_rows(rv.subrange(0, i as int)).len(),
            forall|j: int|
                0 <= j < out@.len() ==> network_from_row(
                    #[trigger] out@[j],
                    user_network_rows(rv.subrange(0, i as int))[j],
                ),
        decreases rows@.len() - i,
    {
        let row = &rows[i];
        let ghost pre = user_network_rows(rv.subrange(0, i as int));
        proof {
            assert(rv[i as int] == views(row@));
            assert(rv.subrange(0, i + 1).drop_last() =~= rv.subrange(0, i as int));
            assert(rv.subrange(0, i + 1).last() == rv[i as int]);
        }
        let name = cell_at(row, 1);
        if !system_network(name.as_str()) {
            out.push(
                SshNetworkInfo {
                    id: cell_at(row, 0),
                    name,
                    driver: cell_at(row, 2),
                    scope: cell_at(row, 3),
                },
            );
            proof {
                assert(user_network_rows(rv.subrange(0, i + 1)) == pre.push(rv[i as int]));
            }
        }
        i = i + 1;
    }
    proof {
        assert(rv.subrange(0, rv.len() as int) =~= rv);
    }
    out
}

#[derive(Debug)]
pub enum SshDockerStatus {
    Running,
    NotRunning,
    NotInstalled,
    SshNotConnected,
}

pub struct SshDockerInfo {
    pub version: String,
    pub server_version: String,
    pub containers_total: i32,
    pub containers_running: i32,
    pub containers_paused: i32,
    pub containers_stopped: i32,
    pub images: i32,
    pub architecture: String,
    pub os: String,
    pub kernel_version: String,
}

pub struct SshDockerSystemUsage {
    pub containers_running: i32,
    pub containers_total: i32,
    pub images_total: i32,
    pub system_info: String,
}

pub struct SshPortMapping {
    pub host_port: u16,
    pub container_port: u16,
    pub protocol: String,
}

pub struct SshVolumeMapping {
    pub host_path: String,
    pub container_path: String,
    pub read_only: bool,
}

pub struct SshEnvVar {
    pub key: String,
    pub value: String,
}

pub struct SshCreateContainerRequest {
    pub name: String,
    pub image: String,
    pub ports: Vec<SshPortMapping>,
    pub volumes: Vec<SshVolumeMapping>,
    pub environment: Vec<SshEnvVar>,
    pub command: Option<String>,
    pub restart_policy: String,
    pub detach: bool,
}

/// Piece `i` of `parts`, or `unknown` when there is none.
pub open spec fn part_or_unknown(parts: Seq<Seq<char>>, i: int) -> Seq<char> {
    if 0 <= i < parts.len() {
        parts[i]
    } else {
        "unknown"@
    }
}

/// The number written by piece `i` of `parts`, or zero.
pub open spec fn count_at(parts: Seq<Seq<char>>, i: int) -> i32 {
    if 0 <= i < parts.len() {
        i32_or_zero(parts[i])
    } else {
        0
    }
}

fn piece_or_unknown(parts: &Vec<String>, i: usize) -> (r: String)
    ensures
        r@ == part_or_unknown(views(parts@), i as int),
{
    if i < parts.len() {
        parts[i].clone()
    } else {
        String::from_str("unknown")
    }
}

fn count_or_zero(parts: &Vec<String>, i: usize) -> (r: i32)
    ensures
        r == count_at(views(parts@), i as int),
{
    if i < parts.len() {
        parse_i32_or_zero(parts[i].as_str())
    } else {
        0
    }
}

/// The daemon description from the outputs of
/// `docker version --format '{{.Client.Version}}|{{.Server.Version}}|{{.Client.Arch}}|{{.Client.Os}}'`
/// and of
/// `docker info --format '{{.Containers}}|{{.ContainersRunning}}|{{.ContainersPaused}}|{{.ContainersStopped}}|{{.Images}}|{{.KernelVersion}}'`.
pub fn parse_docker_info(version_output: &str, info_output: &str) -> (r: SshDockerInfo)
    ensures
        ({
            let v = split_on(trim(version_output@), '|');
            let n = split_on(trim(info_output@), '|');
            &&& r.version@ == part_or_unknown(v, 0)
            &&& r.server_version@ == part_or_unknown(v, 1)
            &&& r.architecture@ == part_or_unknown(v, 2)
            &&& r.os@ == part_or_unknown(v, 3)
            &&& r.containers_total == count_at(n, 0)
            &&& r.containers_running == count_at(n, 1)
            &&& r.containers_paused == count_at(n, 2)
            &&& r.containers_stopped == count_at(n, 3)
            &&& r.images == count_at(n, 4)
            &&& r.kernel_version@ == part_or_unknown(n, 5)
        }),
{
    let v = split_str(trim_str(version_output).as_str(), '|');
    let n = split_str(trim_str(info_output).as_str(), '|');
    SshDockerInfo {
        version: piece_or_unknown(&v, 0),
        server_version: piece_or_unknown(&v, 1),
        containers_total: count_or_zero(&n, 0),
        containers_running: count_or_zero(&n, 1),
        containers_paused: count_or_zero(&n, 2),
        containers_stopped: count_or_zero(&n, 3),
        images: count_or_zero(&n, 4),
        architecture: piece_or_unknown(&v, 2),
        os: piece_or_unknown(&v, 3),
        kernel_version: piece_or_unknown(&n, 5),
    }
}

/// The status when `docker --version` failed with a message that reads
/// `lower` in lower case: not installed when the shell could not find it,
/// otherwise the session is at fault.
pub open spec fn version_failure_status_lower(lower: Seq<char>) -> SshDockerStatus {
    if contains(lower, "command not found"@) || contains(lower, "not found"@) || contains(
        lower,
        "no such file"@,
    ) {
        SshDockerStatus::NotInstalled
    } else {
        SshDockerStatus::SshNotConnected
    }
}

/// The daemon's status from the outcome of `docker --version` (its output,
/// or the failure message) and whether `docker info` then succeeded.
pub fn docker_status(version: &Result<String, String>, info_succeeded: bool) -> (r: SshDockerStatus)
    ensures
        match version {
            Ok(_) => r == (if info_succeeded {
                SshDockerStatus::Running
            } else {
                SshDockerStatus::NotRunning
            }),
            Err(e) => r == version_failure_status_lower(lowercase_of(e@)),
        },
{
    match version {
        Ok(_) => if info_succeeded {
            SshDockerStatus::Running
        } else {
            SshDockerStatus::NotRunning
        },
        Err(e) => {
            let lower = to_lowercase(e.as_str());
            version_failure_status_of(lower.as_str())
        },
    }
}

/// The status when `docker --version` failed with a message that reads
/// `lower` in lower case.
pub fn version_failure_status_of(lower: &str) -> (r: SshDockerStatus)
    ensures
        r == version_failure_status_lower(lower@),
{
    if contains_str(lower, "command not found") || contains_str(lower, "not found") || contains_str(
        lower,
        "no such file",
    ) {
        SshDockerStatus::NotInstalled
    } else {
        SshDockerStatus::SshNotConnected
    }
}

pub open spec fn port_flags(ps: Seq<SshPortMapping>) -> Seq<char>
    decreases ps.len(),
{
    if ps.len() == 0 {
        Seq::empty()
    } else {
        let p = ps.last();
        port_flags(ps.drop_last()) + " -p "@ + decimal(p.host_port as nat) + ":"@ + decimal(
            p.container_port as nat,
        ) + "/"@ + p.protocol@
    }
}

pub open spec fn volume_flags(vs: Seq<SshVolumeMapping>) -> Seq<char>
    decreases vs.len(),
{
    if vs.len() == 0 {
        Seq::empty()
    } else {
        let v = vs.last();
        volume_flags(vs.drop_last()) + " -v "@ + v.host_path@ + ":"@ + v.container_path@ + (
        if v.read_only {
            ":ro"@
        } else {
            Seq::empty()
        })
    }
}

pub open spec fn env_flags(es: Seq<SshEnvVar>) -> Seq<char>
    decreases es.len(),
{
    if es.len() == 0 {
        Seq::empty()
    } else {
        let e = es.last();
        env_flags(es.drop_last()) + " -e "@ + e.key@ + "="@ + e.value@
    }
}

/// The `docker run` command line for `req`: name, detached mode, port,
/// volume and environment flags in order, the restart policy unless it is
/// empty or `no`, the image, then the custom command.
pub open spec fn run_command(req: SshCreateContainerRequest) -> Seq<char> {
    "docker run"@ + (if req.name@.len() > 0 {
        " --name "@ + req.name@
    } else {
        Seq::empty()
    }) + (if req.detach {
        " -d"@
    } else {
        Seq::empty()
    }) + port_flags(req.ports@) + volume_flags(req.volumes@) + env_flags(req.environment@) + (
    if req.restart_policy@.len() > 0 && req.restart_policy@ != "no"@ {
        " --restart "@ + req.restart_policy@
    } else {
        Seq::empty()
    }) + " "@ + req.image@ + (match req.command {
        Some(c) => " "@ + c@,
        None => Seq::empty(),
    })
}

/// The `docker run` command line that creates the container `request` describes.
pub fn create_container_command(request: &SshCreateContainerRequest) -> (r: String)
    ensures
        r@ == run_command(*request),
{
    let mut cmd = String::from_str("docker run");
    if request.name.as_str().unicode_len() > 0 {
        cmd.append(" --name ");
        cmd.append(request.name.as_str());
    }
    if request.detach {
        cmd.append(" -d");
    }
    let ghost head = cmd@;
    let mut i: usize = 0;
    while i < request.ports.len()
        invariant
            i <= request.ports@.len(),
            cmd@ == head + port_flags(request.ports@.subrange(0, i as int)),
        decreases request.ports@.len() - i,
    {
        let p = &request.ports[i];
        proof {
            assert(request.ports@.subrange(0, i + 1).drop_last() =~= request.ports@.subrange(
                0,
                i as int,
            ));
        }
        cmd.append(" -p ");
        cmd.append(decimal_string(p.host_port as u64).as_str());
        cmd.append(":");
        cmd.append(decimal_string(p.container_port as u64).as_str());
        cmd.append("/");
        cmd.append(p.protocol.as_str());
        proof {
            assert(cmd@ =~= head + port_flags(request.ports@.subrange(0, i + 1)));
        }
        i = i + 1;
    }
    proof {
        assert(request.ports@.subrange(0, request.ports@.len() as int) =~= request.ports@);
    }
    let ghost head = cmd@;
    let mut i: usize = 0;
    while i < request.volumes.len()
        invariant
            i <= request.volumes@.len(),
            cmd@ == head + volume_flags(request.volumes@.subrange(0, i as int)),
        decreases request.volumes@.len() - i,
    {
        let v = &request.volumes[i];
        proof {
            assert(request.volumes@.subrange(0, i + 1).drop_last() =~= request.volumes@.subrange(
                0,
                i as int,
            ));
        }
        cmd.append(" -v ");
        cmd.append(v.host_path.as_str());
        cmd.append(":");
        cmd.append(v.container_path.as_str());
        if v.read_only {
            cmd.append(":ro");
        }
        proof {
            assert(cmd@ =~= head + volume_flags(request.volumes@.subrange(0, i + 1)));
        }
        i = i + 1;
    }
    proof {
        assert(request.volumes@.subrange(0, request.volumes@.len() as int) =~= request.volumes@);
    }
    let ghost head = cmd@;
    let mut i: usize = 0;
    while i < request.environment.len()
        invariant
            i <= request.environment@.len(),
            cmd@ == head + env_flags(request.environment@.subrange(0, i as int)),
        decreases request.environment@.len() - i,
    {
        let e = &request.environment[i];
        proof {
            assert(request.environment@.subrange(0, i + 1).drop_last()
                =~= request.environment@.subrange(0, i as int));
        }
        cmd.append(" -e ");
        cmd.append(e.key.as_str());
        cmd.append("=");
        cmd.append(e.value.as_str());
        proof {
            assert(cmd@ =~= head + env_flags(request.environment@.subrange(0, i + 1)));
        }
        i = i + 1;
    }
    proof {
        assert(request.environment@.subrange(0, request.environment@.len() as int)
            =~= request.environment@);
    }
    let no = String::from_str("no");
    if request.restart_policy.as_str().unicode_len() > 0 && request.restart_policy != no {
        cmd.append(" --restart ");
        cmd.append(request.restart_policy.as_str());
    }
    cmd.append(" ");
    cmd.append(request.image.as_str());
    match &request.command {
        Some(c) => {
            cmd.append(" ");
            cmd.append(c.as_str());
        },
        None => {},
    }
    proof {
        assert(cmd@ =~= run_command(*request));
    }
    cmd
}

/// The first line of `output`, trimmed (empty when there is none): the
/// identifier that `docker run -d` prints.
pub open spec fn first_line(output: Seq<char>) -> Seq<char> {
    if lines_of(output).len() > 0 {
        trim(lines_of(output)[0])
    } else {
        Seq::empty()
    }
}

/// The identifier of the created container, from the output of `docker run`.
pub fn created_container_id(output: &str) -> (r: String)
    ensures
        r@ == first_line(output@),
{
    let ls = lines_str(output);
    if ls.len() > 0 {
        trim_str(ls[0].as_str())
    } else {
        String::new()
    }
}

/// The logs as printed, or a notice when they hold only whitespace.
pub fn logs_or_notice(output: String) -> (r: String)
    ensures
        trim(output@).len() == 0 ==> r@ == "Nenhum log disponível"@,
        trim(output@).len() > 0 ==> r@ == output@,
{
    if trim_str(output.as_str()).as_str().unicode_len() == 0 {
        String::from_str("Nenhum log disponível")
    } else {
        output
    }
}

/// A state that reads `lower` in lower case is the running state.
pub open spec fn is_running_lower(lower: Seq<char>) -> bool {
    lower == "running"@
}

/// A container whose state reads `running` in any letter case.
pub open spec fn is_running(c: SshContainerInfo) -> bool {
    is_running_lower(lowercase_of(c.state@))
}

/// Whether a state, given in lower case, is the running state.
pub fn running_state_lower(lower: &str) -> (r: bool)
    ensures
        r == is_running_lower(lower@),
{
    String::from_str(lower) == String::from_str("running")
}

/// The number of running containers in `cs`.
pub open spec fn running_count(cs: Seq<SshContainerInfo>) -> nat
    decreases cs.len(),
{
    if cs.len() == 0 {
        0
    } else {
        running_count(cs.drop_last()) + if is_running(cs.last()) {
            1nat
        } else {
            0nat
        }
    }
}

proof fn lemma_running_count_le(cs: Seq<SshContainerInfo>)
    ensures
        running_count(cs) <= cs.len(),
    decreases cs.len(),
{
    if cs.len() > 0 {
        lemma_running_count_le(cs.drop_last());
    }
}

/// `n` as an `i32`, saturating at the largest one.
pub open spec fn clamp_i32(n: nat) -> i32 {
    if n > i32::MAX {
        i32::MAX
    } else {
        n as i32
    }
}

fn to_i32(n: usize) -> (r: i32)
    ensures
        r == clamp_i32(n as nat),
{
    if n > 0x7fff_ffff {
        0x7fff_ffff
    } else {
        n as i32
    }
}

/// Usage summary of a remote daemon from its containers, its image count and
/// the host description (`uname -a`), trimmed.
pub fn summarize_usage(containers: &Vec<SshContainerInfo>, images_total: usize, system_info: &str) -> (r:
    SshDockerSystemUsage)
    ensures
        r.containers_running == clamp_i32(running_count(containers@)),
        r.containers_total == clamp_i32(containers@.len()),
        r.images_total == clamp_i32(images_total as nat),
        r.system_info@ == trim(system_info@),
{
    let mut count: usize = 0;
    let mut i: usize = 0;
    while i < containers.len()
        invariant
            i <= containers@.len(),
            count == running_count(containers@.subrange(0, i as int)),
        decreases containers@.len() - i,
    {
        proof {
            assert(containers@.subrange(0, i + 1).drop_last() =~= containers@.subrange(0, i as int));
            lemma_running_count_le(containers@.subrange(0, i as int));
        }
        let state = to_lowercase(containers[i].state.as_str());
        if running_state_lower(state.as_str()) {
            count = count + 1;
        }
        i = i + 1;
    }
    proof {
        assert(containers@.subrange(0, containers@.len() as int) =~= containers@);
    }
    SshDockerSystemUsage {
        containers_running: to_i32(count),
        containers_total: to_i32(containers.len()),
        images_total: to_i32(images_total),
        system_info: trim_str(system_info),
    }
}

} // verus!
