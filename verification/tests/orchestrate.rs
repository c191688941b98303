use er_bench::formats::toml_string;
use er_bench::metrics::{
    executed_estimate, metric_family_values, FAILED_FAMILY, RECEIVED_FAMILY,
};
use er_bench::orchestrate::{
    chain_url, configs_dir, er_config, er_launch, er_ports, kill_args, never_ready, register_pid,
    repo_toolchain_channel, ErHandle, ErPorts, Repo, CHAIN_RPC_PORT,
};

fn values(text: &str, family: &str) -> Vec<String> {
    metric_family_values(text.as_bytes(), family.as_bytes())
        .into_iter()
        .map(|value| String::from_utf8(value).unwrap())
        .collect()
}

fn repo() -> Repo {
    Repo::locate("repo", Some("/abs/repo".to_string()), true).unwrap()
}

#[test]
fn a_repo_is_located_by_its_configs() {
    assert_eq!(configs_dir("/abs/repo"), "/abs/repo/test-integration/configs");
    assert_eq!(repo().root, "/abs/repo");
    assert_eq!(repo().test_integration, "/abs/repo/test-integration");
}

#[test]
fn a_missing_repo_is_reported() {
    assert_eq!(
        Repo::locate("some/where", None, true).unwrap_err(),
        "repo root some/where not found"
    );
}

#[test]
fn another_directory_is_refused() {
    assert_eq!(
        Repo::locate("x", Some("/tmp/x".to_string()), false).unwrap_err(),
        "/tmp/x does not look like the magicblock-validator repo"
    );
}

#[test]
fn repo_files_lie_below_the_root() {
    assert_eq!(repo().binary_path(), "/abs/repo/target/release/magicblock-validator");
    assert_eq!(repo().toolchain_file(), "/abs/repo/rust-toolchain.toml");
    assert_eq!(
        repo().chain_config_path(),
        "/abs/repo/test-integration/configs/cloning-conf.devnet.toml"
    );
}

#[test]
fn builds_end_in_a_binary_or_a_message() {
    assert_eq!(
        repo().build_outcome(true, true),
        Ok("/abs/repo/target/release/magicblock-validator".to_string())
    );
    assert_eq!(
        repo().build_outcome(false, true),
        Err("cargo build --release -p magicblock-validator failed".to_string())
    );
    assert_eq!(
        repo().build_outcome(true, false),
        Err("built binary not found at /abs/repo/target/release/magicblock-validator".to_string())
    );
}

#[test]
fn the_toolchain_channel_is_read() {
    let text = "[toolchain]\nchannel = \"1.84.1\"\ncomponents = [\"rustfmt\"]\n";
    assert_eq!(repo_toolchain_channel(text), Some("1.84.1".to_string()));
    assert_eq!(repo_toolchain_channel("[toolchain]\nprofile = \"minimal\"\n"), None);
    assert_eq!(repo_toolchain_channel("channel = \"1.84.1\"\n"), None);
    assert_eq!(repo_toolchain_channel("[toolchain]\nchannel = 1\n"), None);
    assert_eq!(repo_toolchain_channel("toolchain = \"stable\"\n"), None);
    assert_eq!(repo_toolchain_channel("not [ toml"), None);
    assert_eq!(toml_string("[a]\nb = \"c\"\n", "a", "b"), Some("c".to_string()));
}

#[test]
fn ports_are_deterministic() {
    assert_eq!(er_ports(0), ErPorts { rpc: 8899, metrics: 8901, replication: 8902 });
    assert_eq!(er_ports(3), ErPorts { rpc: 8929, metrics: 8931, replication: 8932 });
    assert_eq!(er_ports(65536 + 3), er_ports(3));
}

#[test]
fn validators_use_different_ports() {
    let mut seen: Vec<u16> = vec![CHAIN_RPC_PORT, CHAIN_RPC_PORT + 1];
    for index in 0..100 {
        let ports = er_ports(index);
        for port in [ports.rpc, ports.rpc + 1, ports.metrics, ports.replication] {
            assert!(!seen.contains(&port));
            seen.push(port);
        }
    }
}

#[test]
fn handles_know_their_urls() {
    let er = ErHandle { rpc_port: 8909, metrics_port: 8911, storage: ".run/er-1".to_string() };
    assert_eq!(er.rpc_url(), "http://127.0.0.1:8909");
    assert_eq!(er.metrics_url(), "http://127.0.0.1:8911/metrics");
    assert_eq!(chain_url(), "http://127.0.0.1:7799");
}

#[test]
fn the_config_is_complete() {
    let expected = r#"lifecycle = "ephemeral"
remotes = ["http://127.0.0.1:7799", "ws://127.0.0.1:7800"]

[aperture]
listen = "0.0.0.0:8899"

[commit]
compute-unit-price = 1_000_000

[engine.accountsdb]
lru-capacity = 1000000

[engine.blockstore]
blocktime = "50ms"

[ledger]
reset = true

[metrics]
address = "127.0.0.1:8901"
"#;
    assert_eq!(er_config(8899, 8901, 50), expected);
    assert_eq!(
        toml_string(&er_config(8899, 8901, 400), "engine", "blockstore"),
        None
    );
    assert_eq!(
        toml_string(&er_config(8899, 8901, 400), "aperture", "listen"),
        Some("0.0.0.0:8899".to_string())
    );
}

#[test]
fn a_launch_is_planned_in_full() {
    let launch = er_launch(2, ".run", "KEY", 400);
    assert_eq!(launch.ports, er_ports(2));
    assert_eq!(launch.storage, ".run/er-2");
    assert_eq!(launch.config_path, ".run/er-2/config.toml");
    assert_eq!(launch.config, er_config(8919, 8921, 400));
    assert_eq!(launch.stdout_path, ".run/er-2/stdout.log");
    assert_eq!(launch.stderr_path, ".run/er-2/stderr.log");
    assert_eq!(launch.banner, "[er-2] starting on rpc=8919 metrics=8921");
    let env: Vec<(&str, &str)> =
        launch.env.iter().map(|(name, value)| (name.as_str(), value.as_str())).collect();
    assert_eq!(
        env,
        vec![
            ("RUST_LOG", "warn"),
            ("RUST_LOG_STYLE", "ER2"),
            ("MBV_ENGINE__AUTHORITY__LOCAL", "KEY"),
            ("MBV_ENGINE__REPLICATION__BIND_ADDRESS", "127.0.0.1:8922"),
            ("MBV_ENGINE__LEDGER__DIRECTORY", ".run/er-2/ledger"),
            ("MBV_ENGINE__ACCOUNTSDB__DIRECTORY", ".run/er-2/accountsdb"),
        ]
    );
    assert_eq!(never_ready(2, ".run/er-2"), "er-2 never became ready; see .run/er-2");
}

#[test]
fn validators_use_different_directories() {
    let dirs: Vec<String> = (0..20).map(|i| er_launch(i, "/r", "K", 1).storage).collect();
    for i in 0..dirs.len() {
        for j in 0..i {
            assert_ne!(dirs[i], dirs[j]);
        }
    }
}

#[test]
fn children_are_registered_and_stopped() {
    let mut pids = vec![7];
    register_pid(&mut pids, 4242);
    assert_eq!(pids, vec![7, 4242]);
    assert_eq!(kill_args(4242), vec!["-TERM".to_string(), "4242".to_string()]);
}

#[test]
fn samples_of_a_family_are_found() {
    let text = "# HELP fam help\n# TYPE fam counter\nfam 3\nfam{shard=\"a b\"} 4.5\nfamily 9\nfam_total 8\n fam 7\nfam\n";
    assert_eq!(values(text, "fam"), vec!["3", "4.5"]);
    assert_eq!(values(text, "family"), vec!["9"]);
    assert_eq!(values(text, "none"), Vec::<String>::new());
    assert_eq!(values("", "fam"), Vec::<String>::new());
}

#[test]
fn line_ends_are_stripped() {
    assert_eq!(values("fam 1\r\nfam 2\n\nfam 3", "fam"), vec!["1", "2", "3"]);
    assert_eq!(values("fam 1\r", "fam"), vec!["1\r"]);
    assert_eq!(values("fam{a=\"1\"}2\n", "fam"), vec!["fam{a=\"1\"}2"]);
    assert_eq!(values("fam 12 \n", "fam"), vec![""]);
    assert_eq!(values("#fam 12\n", "#fam"), Vec::<String>::new());
}

#[test]
fn lines_are_those_of_std() {
    for text in ["a 1\na 2\r\na 3\r\n\r\na 4\r", "a 1\r\r\na \n", "\n\n", "a 1\n\ra 2"] {
        let expected: Vec<&str> = text
            .lines()
            .filter(|line| line.starts_with("a "))
            .map(|line| line.rsplit(' ').next().unwrap())
            .collect();
        assert_eq!(values(text, "a"), expected);
    }
}

#[test]
fn joined_texts_have_the_samples_of_both() {
    let texts = [
        "",
        "fam 1",
        "fam 1\n",
        "# c\nfam{x} 2\r\nother 3",
        "\n\nfam 4\nfam 5\n",
        "\r",
        "fam 6\n# end\r",
        "fam\r",
        "fam 7\r\nother 8\r",
    ];
    for a in texts {
        for b in texts {
            let mut expected = values(a, "fam");
            expected.extend(values(b, "fam"));
            assert_eq!(values(&format!("{a}\n{b}"), "fam"), expected);
            let mut swapped = values(&format!("{b}\n{a}"), "fam");
            swapped.sort();
            expected.sort();
            assert_eq!(swapped, expected);
        }
    }
}

#[test]
fn a_return_before_the_joint_is_taken_for_a_line_end() {
    assert_eq!(values("fam 1\r", "fam"), vec!["1\r"]);
    assert_eq!(values("fam 1\r\nfam 2", "fam"), vec!["1", "2"]);
}

#[test]
fn families_have_their_names() {
    assert_eq!(RECEIVED_FAMILY, "mbv_transaction_processing_time_count");
    assert_eq!(FAILED_FAMILY, "engine_processor_failed_transactions");
}

#[test]
fn executed_is_received_minus_failed() {
    assert_eq!(executed_estimate(Some(10), Some(3)), Some(7));
    assert_eq!(executed_estimate(Some(10), None), Some(10));
    assert_eq!(executed_estimate(Some(3), Some(10)), Some(0));
    assert_eq!(executed_estimate(None, Some(3)), None);
}
