use rag_core::supervisor::build_server_args;
use rag_core::supervisor::is_blank;
use rag_core::supervisor::u32_to_decimal;
use rag_core::supervisor::ServerConfig;
use rag_core::supervisor::Supervisor;

#[test]
fn starting_twice_tracks_exactly_one_process() {
    let mut sup = Supervisor::new();
    assert_eq!(sup.current(), None);
    // first start: nothing to tear down
    assert_eq!(sup.stop(), None);
    assert_eq!(sup.track(101), None);
    assert_eq!(sup.current(), Some(101));
    // second start: the first instance is surrendered for teardown
    let victim = sup.stop();
    assert_eq!(victim, Some(101));
    assert_eq!(sup.track(202), None);
    assert_eq!(sup.current(), Some(202));
}

#[test]
fn tracking_over_a_live_handle_surrenders_it() {
    let mut sup = Supervisor::new();
    assert_eq!(sup.track(7), None);
    assert_eq!(sup.track(8), Some(7));
    assert_eq!(sup.current(), Some(8));
}

#[test]
fn stopping_when_nothing_runs_is_a_noop() {
    let mut sup = Supervisor::new();
    assert_eq!(sup.stop(), None);
    assert_eq!(sup.current(), None);
    assert_eq!(sup.stop(), None);
}

#[test]
fn stop_clears_the_tracked_handle() {
    let mut sup = Supervisor::new();
    sup.track(42);
    assert_eq!(sup.stop(), Some(42));
    assert_eq!(sup.current(), None);
}

fn base_config() -> ServerConfig {
    ServerConfig {
        model_path: "/models/m.gguf".to_string(),
        gpu_layers: 33,
        context_size: 4096,
        threads: 8,
        flash_attn: false,
        main_gpu: 0,
        tensor_split: None,
        embedding: false,
    }
}

#[test]
fn base_arguments_are_deterministic() {
    let args = build_server_args(&base_config());
    assert_eq!(
        args,
        vec![
            "-m", "/models/m.gguf", "--port", "8080", "-c", "4096", "-t", "8", "-ngl", "33",
            "-mg", "0",
        ]
        .into_iter()
        .map(str::to_string)
        .collect::<Vec<String>>()
    );
}

#[test]
fn embedding_mode_appends_pooling_and_batch_flags() {
    let mut config = base_config();
    config.embedding = true;
    let args = build_server_args(&config);
    let tail: Vec<String> = args[12..].to_vec();
    assert_eq!(
        tail,
        vec!["--embedding", "--pooling", "cls", "-ub", "8192"]
            .into_iter()
            .map(str::to_string)
            .collect::<Vec<String>>()
    );
}

#[test]
fn flash_attention_appends_one_flag_only_when_enabled() {
    let mut config = base_config();
    config.flash_attn = true;
    let args = build_server_args(&config);
    assert_eq!(args.last().map(String::as_str), Some("-fa"));
    assert_eq!(args.len(), 13);
}

#[test]
fn tensor_split_is_appended_only_when_not_blank() {
    let mut config = base_config();
    config.tensor_split = Some("3,1".to_string());
    let args = build_server_args(&config);
    assert_eq!(args[12..], ["-ts".to_string(), "3,1".to_string()]);

    config.tensor_split = Some("   ".to_string());
    let args = build_server_args(&config);
    assert_eq!(args.len(), 12);

    config.tensor_split = Some(" \t\n".to_string());
    let args = build_server_args(&config);
    assert_eq!(args.len(), 12);
}

#[test]
fn all_options_together_keep_the_order() {
    let config = ServerConfig {
        model_path: "m.gguf".to_string(),
        gpu_layers: 99,
        context_size: 8192,
        threads: 16,
        flash_attn: true,
        main_gpu: 1,
        tensor_split: Some(" 60,40 ".to_string()),
        embedding: true,
    };
    let args = build_server_args(&config);
    assert_eq!(
        args,
        vec![
            "-m", "m.gguf", "--port", "8080", "-c", "8192", "-t", "16", "-ngl", "99", "-mg",
            "1", "--embedding", "--pooling", "cls", "-ub", "8192", "-fa", "-ts", " 60,40 ",
        ]
        .into_iter()
        .map(str::to_string)
        .collect::<Vec<String>>()
    );
}

#[test]
fn decimal_formatting_is_exact() {
    assert_eq!(u32_to_decimal(0), "0");
    assert_eq!(u32_to_decimal(7), "7");
    assert_eq!(u32_to_decimal(10), "10");
    assert_eq!(u32_to_decimal(8080), "8080");
    assert_eq!(u32_to_decimal(u32::MAX), "4294967295");
}

#[test]
fn blankness_follows_unicode_white_space() {
    assert!(is_blank(""));
    assert!(is_blank(" \t\r\n"));
    assert!(is_blank("\u{00A0}\u{2003}"));
    assert!(!is_blank(" x "));
    assert!(!is_blank("0"));
}
