//! The processes of a run: where they live, how they are started and which
//! ports they use.
use crate::formats::{string_under, toml_document_strings, toml_string};
use crate::text::{decimal, decimal_is_injective, decimal_string, join_path, joined};
use vstd::prelude::*;

verus! {

pub const CHAIN_RPC_PORT: u16 = 7799;

pub const ER_BASE_PORT: u16 = 8899;

pub const ER_PORT_STRIDE: u16 = 10;

/// A checkout of the validator's repository.
#[derive(Debug)]
pub struct Repo {
    pub root: String,
    pub test_integration: String,
}

/// Where the integration tests of a checkout lie.
pub open spec fn test_integration_of(root: Seq<char>) -> Seq<char> {
    joined(root, "test-integration"@)
}

/// The directory whose presence tells the repository from any other.
pub fn configs_dir(root: &str) -> (path: String)
    ensures
        path@ == joined(test_integration_of(root@), "configs"@),
{
    let test_integration = join_path(root, "test-integration");
    join_path(test_integration.as_str(), "configs")
}

impl Repo {
    /// The repository at `requested`, which resolves to `canonical` if it
    /// exists at all; `has_configs` tells whether [`configs_dir`] of the
    /// resolved path is a directory. The error is the text to report.
    pub fn locate(requested: &str, canonical: Option<String>, has_configs: bool) -> (result: Result<
        Repo,
        String,
    >)
        ensures
            match canonical {
                None => result is Err && result->Err_0@ == "repo root "@ + requested@
                    + " not found"@,
                Some(root) => if has_configs {
                    result is Ok && result->Ok_0.root@ == root@ && result->Ok_0.test_integration@
                        == test_integration_of(root@)
                } else {
                    result is Err && result->Err_0@ == root@
                        + " does not look like the magicblock-validator repo"@
                },
            },
    {
        match canonical {
            None => {
                let mut message = String::from_str("repo root ");
                message.append(requested);
                message.append(" not found");
                Err(message)
            },
            Some(root) => if has_configs {
                let test_integration = join_path(root.as_str(), "test-integration");
                Ok(Repo { root, test_integration })
            } else {
                let mut message = root;
                message.append(" does not look like the magicblock-validator repo");
                Err(message)
            },
        }
    }

    /// Where the release build leaves the validator.
    pub fn binary_path(&self) -> (path: String)
        ensures
            path@ == joined(self.root@, "target/release/magicblock-validator"@),
    {
        join_path(self.root.as_str(), "target/release/magicblock-validator")
    }

    /// The file that pins the repository's toolchain.
    pub fn toolchain_file(&self) -> (path: String)
        ensures
            path@ == joined(self.root@, "rust-toolchain.toml"@),
    {
        join_path(self.root.as_str(), "rust-toolchain.toml")
    }

    /// The configuration of the local base chain.
    pub fn chain_config_path(&self) -> (path: String)
        ensures
            path@ == joined(self.test_integration@, "configs/cloning-conf.devnet.toml"@),
    {
        join_path(self.test_integration.as_str(), "configs/cloning-conf.devnet.toml")
    }

    /// What a release build that has ended came to: the binary's path, or the
    /// text to report.
    pub fn build_outcome(&self, build_succeeded: bool, binary_is_file: bool) -> (result: Result<
        String,
        String,
    >)
        ensures
            match result {
                Ok(path) => build_succeeded && binary_is_file && path@ == joined(
                    self.root@,
                    "target/release/magicblock-validator"@,
                ),
                Err(message) => if build_succeeded {
                    !binary_is_file && message@ == "built binary not found at "@ + joined(
                        self.root@,
                        "target/release/magicblock-validator"@,
                    )
                } else {
                    message@ == "cargo build --release -p magicblock-validator failed"@
                },
            },
    {
        if !build_succeeded {
            return Err(String::from_str("cargo build --release -p magicblock-validator failed"));
        }
        let path = self.binary_path();
        if binary_is_file {
            Ok(path)
        } else {
            let mut message = String::from_str("built binary not found at ");
            message.append(path.as_str());
            Err(message)
        }
    }
}

/// The toolchain channel that the text of a `rust-toolchain.toml` pins.
pub fn repo_toolchain_channel(text: &str) -> (channel: Option<String>)
    ensures
        match toml_document_strings(text@) {
            Some(strings) => match channel {
                Some(name) => string_under(strings, "toolchain"@, "channel"@) == Some(name@),
                None => string_under(strings, "toolchain"@, "channel"@) is None,
            },
            None => channel is None,
        },
{
    toml_string(text, "toolchain", "channel")
}

/// The ports of one ephemeral validator.
#[derive(Clone, Copy, Debug, PartialEq, Eq, Structural)]
pub struct ErPorts {
    pub rpc: u16,
    pub metrics: u16,
    pub replication: u16,
}

/// The first port, which is the RPC port, of validator number `index`.
pub open spec fn first_port(index: nat) -> nat {
    ER_BASE_PORT as nat + (index % 65536) * ER_PORT_STRIDE as nat
}

/// Whether validator number `index` has ports: numbers count in 16 bits, and
/// the highest port must be one.
pub open spec fn has_ports(index: nat) -> bool {
    first_port(index) + 3 <= 65535
}

/// The ports of validator number `index`, which are deterministic:
/// rpc = 8899 + index * 10 (ws = rpc + 1), metrics = rpc + 2,
/// replication = rpc + 3.
pub fn er_ports(index: usize) -> (ports: ErPorts)
    requires
        has_ports(index as nat),
    ensures
        ports.rpc == first_port(index as nat),
        ports.metrics == ports.rpc + 2,
        ports.replication == ports.rpc + 3,
{
    let number: u16 = (index % 65536) as u16;
    let rpc: u16 = ER_BASE_PORT + number * ER_PORT_STRIDE;
    ErPorts { rpc, metrics: rpc + 2, replication: rpc + 3 }
}

/// Whether `port` is one that validator number `index` uses: its RPC port, the
/// websocket port next to it, its metrics port or its replication port.
pub open spec fn uses_port(index: nat, port: int) -> bool {
    first_port(index) <= port <= first_port(index) + 3
}

/// Validators use ports that no other validator and not the base chain uses.
pub proof fn validators_share_no_port(a: nat, b: nat, port: int)
    requires
        a < 65536,
        b < 65536,
        uses_port(a, port),
    ensures
        uses_port(b, port) ==> a == b,
        port != CHAIN_RPC_PORT,
        port != CHAIN_RPC_PORT + 1,
{
}

/// A running ephemeral validator.
pub struct ErHandle {
    pub rpc_port: u16,
    pub metrics_port: u16,
    /// Where it keeps its files.
    pub storage: String,
}

impl ErHandle {
    /// Where its JSON-RPC is served.
    pub fn rpc_url(&self) -> (url: String)
        ensures
            url@ == "http://127.0.0.1:"@ + decimal(self.rpc_port as nat),
    {
        local_url(self.rpc_port)
    }

    /// Where its metrics are served.
    pub fn metrics_url(&self) -> (url: String)
        ensures
            url@ == "http://127.0.0.1:"@ + decimal(self.metrics_port as nat) + "/metrics"@,
    {
        let mut url = local_url(self.metrics_port);
        url.append("/metrics");
        url
    }
}

/// The URL of a port of this machine.
pub fn local_url(port: u16) -> (url: String)
    ensures
        url@ == "http://127.0.0.1:"@ + decimal(port as nat),
{
    let mut url = String::from_str("http://127.0.0.1:");
    url.append(decimal_string(port as u64).as_str());
    url
}

/// Where the local base chain's JSON-RPC is served.
pub fn chain_url() -> (url: String)
    ensures
        url@ == "http://127.0.0.1:"@ + decimal(CHAIN_RPC_PORT as nat),
{
    local_url(CHAIN_RPC_PORT)
}

/// The configuration of an ephemeral validator.
pub open spec fn config_text(rpc_port: nat, metrics_port: nat, blocktime_ms: nat) -> Seq<char> {
    "lifecycle = \"ephemeral\"\nremotes = [\"http://127.0.0.1:"@ + decimal(CHAIN_RPC_PORT as nat)
        + "\", \"ws://127.0.0.1:"@ + decimal((CHAIN_RPC_PORT + 1) as nat)
        + "\"]\n\n[aperture]\nlisten = \"0.0.0.0:"@ + decimal(rpc_port)
        + "\"\n\n[commit]\ncompute-unit-price = 1_000_000\n\n[engine.accountsdb]\nlru-capacity = 1000000\n\n[engine.blockstore]\nblocktime = \""@
        + decimal(blocktime_ms)
        + "ms\"\n\n[ledger]\nreset = true\n\n[metrics]\naddress = \"127.0.0.1:"@ + decimal(
        metrics_port,
    ) + "\"\n"@
}

/// Writes the configuration of an ephemeral validator.
pub fn er_config(rpc_port: u16, metrics_port: u16, blocktime_ms: u64) -> (config: String)
    ensures
        config@ == config_text(rpc_port as nat, metrics_port as nat, blocktime_ms as nat),
{
    let mut config = String::from_str(
        "lifecycle = \"ephemeral\"\nremotes = [\"http://127.0.0.1:",
    );
    config.append(decimal_string(CHAIN_RPC_PORT as u64).as_str());
    config.append("\", \"ws://127.0.0.1:");
    config.append(decimal_string(CHAIN_RPC_PORT as u64 + 1).as_str());
    config.append("\"]\n\n[aperture]\nlisten = \"0.0.0.0:");
    config.append(decimal_string(rpc_port as u64).as_str());
    config.append(
        "\"\n\n[commit]\ncompute-unit-price = 1_000_000\n\n[engine.accountsdb]\nlru-capacity = 1000000\n\n[engine.blockstore]\nblocktime = \"",
    );
    config.append(decimal_string(blocktime_ms).as_str());
    config.append("ms\"\n\n[ledger]\nreset = true\n\n[metrics]\naddress = \"127.0.0.1:");
    config.append(decimal_string(metrics_port as u64).as_str());
    config.append("\"\n");
    config
}

/// The directory of validator number `index` under `run_dir`.
pub open spec fn storage_of(run_dir: Seq<char>, index: nat) -> Seq<char> {
    joined(run_dir, "er-"@ + decimal(index))
}

/// No two validators keep their files in the same directory.
pub proof fn validators_share_no_storage(run_dir: Seq<char>, a: nat, b: nat)
    requires
        storage_of(run_dir, a) == storage_of(run_dir, b),
    ensures
        a == b,
{
    let (x, y) = (storage_of(run_dir, a), storage_of(run_dir, b));
    reveal_strlit("/");
    reveal_strlit("er-");
    let skip = if run_dir.len() == 0 || run_dir.last() == '/' {
        run_dir.len() + 3
    } else {
        run_dir.len() + 4
    };
    assert(x.skip(skip as int) =~= decimal(a));
    assert(y.skip(skip as int) =~= decimal(b));
    decimal_is_injective(a, b);
}

/// Everything that starting one ephemeral validator takes.
pub struct ErLaunch {
    pub ports: ErPorts,
    pub storage: String,
    pub config_path: String,
    pub config: String,
    /// Environment variables, name and value.
    pub env: Vec<(String, String)>,
    pub stdout_path: String,
    pub stderr_path: String,
    /// The line that announces the start.
    pub banner: String,
}

/// What each environment variable says.
pub open spec fn env_view(env: Seq<(String, String)>) -> Seq<(Seq<char>, Seq<char>)> {
    env.map_values(|pair: (String, String)| (pair.0@, pair.1@))
}

/// The environment of validator number `index`.
pub open spec fn er_env(
    index: nat,
    storage: Seq<char>,
    authority: Seq<char>,
    replication_port: nat,
) -> Seq<(Seq<char>, Seq<char>)> {
    seq![
        ("RUST_LOG"@, "warn"@),
        ("RUST_LOG_STYLE"@, "ER"@ + decimal(index)),
        ("MBV_ENGINE__AUTHORITY__LOCAL"@, authority),
        (
            "MBV_ENGINE__REPLICATION__BIND_ADDRESS"@,
            "127.0.0.1:"@ + decimal(replication_port),
        ),
        ("MBV_ENGINE__LEDGER__DIRECTORY"@, joined(storage, "ledger"@)),
        ("MBV_ENGINE__ACCOUNTSDB__DIRECTORY"@, joined(storage, "accountsdb"@)),
    ]
}

/// Plans the start of validator number `index`, whose files go under
/// `run_dir` and whose authority is the key pair written in `authority`.
pub fn er_launch(index: usize, run_dir: &str, authority: &str, blocktime_ms: u64) -> (launch:
    ErLaunch)
    requires
        has_ports(index as nat),
    ensures
        launch.ports.rpc == first_port(index as nat),
        launch.ports.metrics == launch.ports.rpc + 2,
        launch.ports.replication == launch.ports.rpc + 3,
        launch.storage@ == storage_of(run_dir@, index as nat),
        launch.config_path@ == joined(launch.storage@, "config.toml"@),
        launch.config@ == config_text(
            launch.ports.rpc as nat,
            launch.ports.metrics as nat,
            blocktime_ms as nat,
        ),
        env_view(launch.env@) == er_env(
            index as nat,
            launch.storage@,
            authority@,
            launch.ports.replication as nat,
        ),
        launch.stdout_path@ == joined(launch.storage@, "stdout.log"@),
        launch.stderr_path@ == joined(launch.storage@, "stderr.log"@),
        launch.banner@ == "[er-"@ + decimal(index as nat) + "] starting on rpc="@ + decimal(
            launch.ports.rpc as nat,
        ) + " metrics="@ + decimal(launch.ports.metrics as nat),
{
    let ports = er_ports(index);
    let number = decimal_string(index as u64);
    let mut name = String::from_str("er-");
    name.append(number.as_str());
    let storage = join_path(run_dir, name.as_str());
    let mut style = String::from_str("ER");
    style.append(number.as_str());
    let mut bind = String::from_str("127.0.0.1:");
    bind.append(decimal_string(ports.replication as u64).as_str());
    let env: Vec<(String, String)> = vec![
        (String::from_str("RUST_LOG"), String::from_str("warn")),
        (String::from_str("RUST_LOG_STYLE"), style),
        (String::from_str("MBV_ENGINE__AUTHORITY__LOCAL"), String::from_str(authority)),
        (String::from_str("MBV_ENGINE__REPLICATION__BIND_ADDRESS"), bind),
        (
            String::from_str("MBV_ENGINE__LEDGER__DIRECTORY"),
            join_path(storage.as_str(), "ledger"),
        ),
        (
            String::from_str("MBV_ENGINE__ACCOUNTSDB__DIRECTORY"),
            join_path(storage.as_str(), "accountsdb"),
        ),
    ];
    assert(env_view(env@) =~= er_env(
        index as nat,
        storage@,
        authority@,
        ports.replication as nat,
    ));
    let mut banner = String::from_str("[er-");
    banner.append(number.as_str());
    banner.append("] starting on rpc=");
    banner.append(decimal_string(ports.rpc as u64).as_str());
    banner.append(" metrics=");
    banner.append(decimal_string(ports.metrics as u64).as_str());
    ErLaunch {
        ports,
        config_path: join_path(storage.as_str(), "config.toml"),
        config: er_config(ports.rpc, ports.metrics, blocktime_ms),
        env,
        stdout_path: join_path(storage.as_str(), "stdout.log"),
        stderr_path: join_path(storage.as_str(), "stderr.log"),
        banner,
        storage,
    }
}

/// The text that reports a validator that never became ready.
pub fn never_ready(index: usize, storage: &str) -> (message: String)
    ensures
        message@ == "er-"@ + decimal(index as nat) + " never became ready; see "@ + storage@,
{
    let mut message = String::from_str("er-");
    message.append(decimal_string(index as u64).as_str());
    message.append(" never became ready; see ");
    message.append(storage);
    message
}

/// Notes a child process to be stopped at the end.
pub fn register_pid(pids: &mut Vec<u32>, pid: u32)
    ensures
        final(pids)@ == old(pids)@.push(pid),
{
    pids.push(pid);
}

/// The arguments with which `kill` asks a process to end.
pub fn kill_args(pid: u32) -> (args: Vec<String>)
    ensures
        args@.len() == 2,
        args@[0]@ == "-TERM"@,
        args@[1]@ == decimal(pid as nat),
{
    vec![String::from_str("-TERM"), decimal_string(pid as u64)]
}

/// The first validator listens on port 8899 and each further one ten ports
/// on, counting in 16 bits.
pub proof fn ports_lie_ten_apart(index: nat)
    ensures
        first_port(0) == 8899,
        index + 1 < 65536 ==> first_port(index + 1) == first_port(index) + 10,
        first_port(index + 65536) == first_port(index),
{
}

/// A validator's environment gives it its own name in the logs, the authority,
/// its own replication port, and its ledger and accounts inside its own
/// directory.
pub proof fn environments_are_the_validators_own(
    index: nat,
    storage: Seq<char>,
    authority: Seq<char>,
    replication_port: nat,
)
    ensures
        ({
            let env = er_env(index, storage, authority, replication_port);
            &&& env.len() == 6
            &&& env.contains(("RUST_LOG"@, "warn"@))
            &&& env.contains(("RUST_LOG_STYLE"@, "ER"@ + decimal(index)))
            &&& env.contains(("MBV_ENGINE__AUTHORITY__LOCAL"@, authority))
            &&& env.contains(
                (
                    "MBV_ENGINE__REPLICATION__BIND_ADDRESS"@,
                    "127.0.0.1:"@ + decimal(replication_port),
                ),
            )
            &&& env.contains(("MBV_ENGINE__LEDGER__DIRECTORY"@, joined(storage, "ledger"@)))
            &&& env.contains(
                ("MBV_ENGINE__ACCOUNTSDB__DIRECTORY"@, joined(storage, "accountsdb"@)),
            )
        }),
{
    let env = er_env(index, storage, authority, replication_port);
    assert(env[0] == ("RUST_LOG"@, "warn"@));
    assert(env[1] == ("RUST_LOG_STYLE"@, "ER"@ + decimal(index)));
    assert(env[2] == ("MBV_ENGINE__AUTHORITY__LOCAL"@, authority));
    assert(env[3] == (
        "MBV_ENGINE__REPLICATION__BIND_ADDRESS"@,
        "127.0.0.1:"@ + decimal(replication_port),
    ));
    assert(env[4] == ("MBV_ENGINE__LEDGER__DIRECTORY"@, joined(storage, "ledger"@)));
    assert(env[5] == ("MBV_ENGINE__ACCOUNTSDB__DIRECTORY"@, joined(storage, "accountsdb"@)));
}

/// Whether a text has `part` somewhere inside.
pub open spec fn has_part(text: Seq<char>, part: Seq<char>) -> bool {
    exists|at: int|
        0 <= at <= at + part.len() <= text.len() && #[trigger] text.subrange(
            at,
            at + part.len(),
        ) == part
}

/// A text made of three parts has the middle one inside.
proof fn middle_is_a_part(before: Seq<char>, part: Seq<char>, after: Seq<char>)
    ensures
        has_part(before + part + after, part),
{
    let text = before + part + after;
    let at = before.len() as int;
    assert(text.subrange(at, at + part.len()) =~= part);
}

/// A validator's configuration names the base chain's two ports, and the
/// validator's own listening port, block time and metrics port, each under its
/// key and just as given.
pub proof fn configurations_hold_what_they_are_given(
    rpc_port: nat,
    metrics_port: nat,
    blocktime_ms: nat,
)
    ensures
        has_part(
            config_text(rpc_port, metrics_port, blocktime_ms),
            "http://127.0.0.1:"@ + decimal(7799) + "\", \"ws://127.0.0.1:"@ + decimal(7800)
                + "\"]\n"@,
        ),
        has_part(
            config_text(rpc_port, metrics_port, blocktime_ms),
            "listen = \"0.0.0.0:"@ + decimal(rpc_port) + "\"\n"@,
        ),
        has_part(
            config_text(rpc_port, metrics_port, blocktime_ms),
            "blocktime = \""@ + decimal(blocktime_ms) + "ms\"\n"@,
        ),
        has_part(
            config_text(rpc_port, metrics_port, blocktime_ms),
            "address = \"127.0.0.1:"@ + decimal(metrics_port) + "\"\n"@,
        ),
{
    let text = config_text(rpc_port, metrics_port, blocktime_ms);
    let head = "lifecycle = \"ephemeral\"\nremotes = [\"http://127.0.0.1:"@;
    let remotes = decimal(7799) + "\", \"ws://127.0.0.1:"@ + decimal(7800);
    let listen = "\"]\n\n[aperture]\nlisten = \"0.0.0.0:"@;
    let block =
        "\"\n\n[commit]\ncompute-unit-price = 1_000_000\n\n[engine.accountsdb]\nlru-capacity = 1000000\n\n[engine.blockstore]\nblocktime = \""@;
    let metrics = "ms\"\n\n[ledger]\nreset = true\n\n[metrics]\naddress = \"127.0.0.1:"@;
    let tail = "\"\n"@;
    reveal_strlit("lifecycle = \"ephemeral\"\nremotes = [\"http://127.0.0.1:");
    reveal_strlit("http://127.0.0.1:");
    reveal_strlit("\"]\n\n[aperture]\nlisten = \"0.0.0.0:");
    reveal_strlit("\"]\n");
    reveal_strlit("listen = \"0.0.0.0:");
    reveal_strlit(
        "\"\n\n[commit]\ncompute-unit-price = 1_000_000\n\n[engine.accountsdb]\nlru-capacity = 1000000\n\n[engine.blockstore]\nblocktime = \"",
    );
    reveal_strlit("blocktime = \"");
    reveal_strlit("ms\"\n\n[ledger]\nreset = true\n\n[metrics]\naddress = \"127.0.0.1:");
    reveal_strlit("ms\"\n");
    reveal_strlit("address = \"127.0.0.1:");
    reveal_strlit("\"\n");
    assert(head.skip(head.len() - 17) =~= "http://127.0.0.1:"@);
    assert(listen.take(3) =~= "\"]\n"@);
    assert(listen.skip(listen.len() - 18) =~= "listen = \"0.0.0.0:"@);
    assert(block.take(2) =~= tail);
    assert(block.skip(block.len() - 13) =~= "blocktime = \""@);
    assert(metrics.take(4) =~= "ms\"\n"@);
    assert(metrics.skip(metrics.len() - 21) =~= "address = \"127.0.0.1:"@);
    assert(head =~= head.take(head.len() - 17) + head.skip(head.len() - 17));
    assert(listen =~= listen.take(3) + listen.skip(3));
    assert(listen =~= listen.take(listen.len() - 18) + listen.skip(listen.len() - 18));
    assert(block =~= block.take(2) + block.skip(2));
    assert(block =~= block.take(block.len() - 13) + block.skip(block.len() - 13));
    assert(metrics =~= metrics.take(4) + metrics.skip(4));
    assert(metrics =~= metrics.take(metrics.len() - 21) + metrics.skip(metrics.len() - 21));
    let rpc = decimal(rpc_port);
    let ms = decimal(blocktime_ms);
    let own = decimal(metrics_port);
    assert(text =~= head + remotes + listen + rpc + block + ms + metrics + own + tail);
    let first = "http://127.0.0.1:"@ + remotes + "\"]\n"@;
    assert(first =~= "http://127.0.0.1:"@ + decimal(7799) + "\", \"ws://127.0.0.1:"@ + decimal(7800)
        + "\"]\n"@);
    middle_is_a_part(
        head.take(head.len() - 17),
        first,
        listen.skip(3) + rpc + block + ms + metrics + own + tail,
    );
    assert(text =~= head.take(head.len() - 17) + first + (listen.skip(3) + rpc + block + ms
        + metrics + own + tail));
    let second = "listen = \"0.0.0.0:"@ + rpc + tail;
    middle_is_a_part(
        head + remotes + listen.take(listen.len() - 18),
        second,
        block.skip(2) + ms + metrics + own + tail,
    );
    assert(text =~= (head + remotes + listen.take(listen.len() - 18)) + second + (block.skip(2) + ms
        + metrics + own + tail));
    let third = "blocktime = \""@ + ms + "ms\"\n"@;
    middle_is_a_part(
        head + remotes + listen + rpc + block.take(block.len() - 13),
        third,
        metrics.skip(4) + own + tail,
    );
    assert(text =~= (head + remotes + listen + rpc + block.take(block.len() - 13)) + third + (
    metrics.skip(4) + own + tail));
    let fourth = "address = \"127.0.0.1:"@ + own + tail;
    let before = head + remotes + listen + rpc + block + ms + metrics.take(metrics.len() - 21);
    middle_is_a_part(before, fourth, Seq::<char>::empty());
    assert(text =~= before + fourth + Seq::<char>::empty());
}

} // verus!
