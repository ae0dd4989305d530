use mini_lmk::config::{ConfigPaths, RuntimeConfig};

#[test]
fn test_config_paths_resolution() {
    let p_default = ConfigPaths::from_base("/data/local/tmp/mlmk");
    assert_eq!(p_default.base_dir, "/data/local/tmp/mlmk");
    assert_eq!(p_default.config_dir, "/data/local/tmp/mlmk/config");
    assert_eq!(p_default.logs_dir, "/data/local/tmp/mlmk/logs");
    assert_eq!(p_default.config_file, "/data/local/tmp/mlmk/config/daemon.conf");
    assert_eq!(p_default.exclude_file, "/data/local/tmp/mlmk/config/exclude.list");
    assert_eq!(p_default.games_file, "/data/local/tmp/mlmk/config/games.list");
    assert_eq!(p_default.operations_log, "/data/local/tmp/mlmk/logs/operations.log");

    let p_mod = ConfigPaths::from_base("/data/user_de/0/com.android.shell/axeron/plugins/mini_lmk/mlmk/");
    assert_eq!(p_mod.base_dir, "/data/user_de/0/com.android.shell/axeron/plugins/mini_lmk/mlmk");
    assert_eq!(p_mod.config_file, "/data/user_de/0/com.android.shell/axeron/plugins/mini_lmk/mlmk/config/daemon.conf");
}

#[test]
fn test_runtime_config_parse() {
    let mut cfg = RuntimeConfig::default();
    assert_eq!(cfg.t_idle_sec, 180);
    assert_eq!(cfg.lru_protect_depth, 3);
    assert_eq!(cfg.mem_critical_percent, 10);
    assert_eq!(cfg.fg_lru_max_depth, 10);
    assert!(cfg.screen_off_harvest);
    assert_eq!(cfg.max_kills_per_pass, 2);
    assert_eq!(cfg.min_oom_score_adj, 900);

    let content = "
            # /data/local/tmp/mlmk/config/daemon.conf
            # Live-tunable volatile parameters
            t_idle_sec = 60
            lru_protect_depth = 5
            mem_critical_percent = 15
            fg_lru_max_depth = 20
            screen_off_harvest = false
            max_kills_per_pass = 4
            min_oom_score_adj = 700
            # Unknown keys should be safely ignored
            invalid_key = 999
        ";
    cfg.parse_str(content);
    assert_eq!(cfg.t_idle_sec, 60);
    assert_eq!(cfg.lru_protect_depth, 5);
    assert_eq!(cfg.mem_critical_percent, 15);
    assert_eq!(cfg.fg_lru_max_depth, 20);
    assert!(!cfg.screen_off_harvest);
    assert_eq!(cfg.max_kills_per_pass, 4);
    assert_eq!(cfg.min_oom_score_adj, 700);

    // Enforce lower bound of 1 for max_kills_per_pass
    cfg.parse_str("max_kills_per_pass = 0");
    assert_eq!(cfg.max_kills_per_pass, 1);

    // Clamp min_oom_score_adj to 500..=900
    cfg.parse_str("min_oom_score_adj = 300");
    assert_eq!(cfg.min_oom_score_adj, 500);
    cfg.parse_str("min_oom_score_adj = 1000");
    assert_eq!(cfg.min_oom_score_adj, 900);
}

#[test]
fn test_inline_comments() {
    let mut cfg = RuntimeConfig::default();
    cfg.parse_str("t_idle_sec = 60 # aggressive\nlru_protect_depth=2# tight");
    assert_eq!(cfg.t_idle_sec, 60);
    assert_eq!(cfg.lru_protect_depth, 2);
}

#[test]
fn the_module_path_moves_the_base_directory() {
    assert_eq!(ConfigPaths::get(None).base_dir, "/data/local/tmp/mlmk");
    assert_eq!(ConfigPaths::get(Some("  ")).base_dir, "/data/local/tmp/mlmk");
    assert_eq!(ConfigPaths::get(Some(" /m/p// ")).base_dir, "/m/p/mlmk");
    assert_eq!(ConfigPaths::get(Some("/m")).operations_log, "/m/mlmk/logs/operations.log");
    // A path of slashes alone leaves the module directory at the root.
    assert_eq!(ConfigPaths::get(Some("/")).base_dir, "/mlmk");
}

#[test]
fn the_log_switch_is_a_parameter() {
    let mut cfg = RuntimeConfig::default();
    assert!(cfg.log_enabled);
    cfg.parse_str("log_enabled=false");
    assert_eq!(cfg, RuntimeConfig { log_enabled: false, ..RuntimeConfig::default() });
    cfg.parse_str("log_enabled = yes");
    assert!(!cfg.log_enabled);
    cfg.parse_str("log_enabled = true");
    assert_eq!(cfg, RuntimeConfig::default());
}

#[test]
fn values_that_are_none_change_nothing() {
    let mut cfg = RuntimeConfig::default();
    cfg.parse_str(
        "t_idle_sec=-1\nlru_protect_depth=x\nmem_critical_percent=\nfg_lru_max_depth=1.5\nscreen_off_harvest=TRUE\nmax_kills_per_pass=18446744073709551616\nmin_oom_score_adj=99999999999\nt_idle_sec\n=5",
    );
    assert_eq!(cfg, RuntimeConfig::default());
    cfg.parse_str("min_oom_score_adj=-5");
    assert_eq!(cfg.min_oom_score_adj, 500);
    cfg.parse_str("t_idle_sec=+7");
    assert_eq!(cfg.t_idle_sec, 7);
    cfg.parse_str("t_idle_sec=1=2");
    assert_eq!(cfg.t_idle_sec, 7);
    cfg.parse_str("t_idle_sec=8\r\nmem_critical_percent=20\r\n");
    assert_eq!((cfg.t_idle_sec, cfg.mem_critical_percent), (8, 20));
}

#[test]
fn two_files_count_as_one_behind_the_other() {
    let mut one = RuntimeConfig::default();
    one.parse_str("t_idle_sec=1\nlru_protect_depth=7");
    one.parse_str("t_idle_sec=2");
    let mut both = RuntimeConfig::default();
    both.parse_str("t_idle_sec=1\nlru_protect_depth=7\nt_idle_sec=2");
    assert_eq!(one, both);
    assert_eq!(both.t_idle_sec, 2);
}

#[test]
fn loading_tells_the_active_parameters() {
    let mut cfg = RuntimeConfig::default();
    assert_eq!(cfg.load_from_file(None, false), None);
    assert_eq!(cfg.load_from_file(Some("t_idle_sec=9"), true), None);
    assert_eq!(cfg.t_idle_sec, 9);
    assert_eq!(
        cfg.load_from_file(Some("max_kills_per_pass=3"), false).unwrap(),
        "[CONFIG] Active: t_idle=9s, lru_depth=3, mem_crit=10%, fg_lru_max=10, screen_off_harvest=true, max_kills_per_pass=3, min_oom_adj=900"
    );
}
