use wasp_gateway::opts::ServeOpt;

fn sample() -> ServeOpt {
    ServeOpt {
        addr: "127.0.0.1:8080".to_string(),
        command: "guest.wasm".to_string(),
        pre_opened_directories: vec!["/tmp/a".to_string(), "/tmp/b".to_string()],
        args: vec!["--flag".to_string(), "value".to_string()],
    }
}

#[test]
fn name_and_path_are_the_command() {
    let o = sample();
    assert_eq!(o.get_name(), "guest.wasm");
    assert_eq!(o.get_wasm_path(), "guest.wasm");
}

#[test]
fn preopen_dirs_kept_in_order() {
    let o = sample();
    assert_eq!(
        o.get_preopen_dirs(),
        &vec!["/tmp/a".to_string(), "/tmp/b".to_string()]
    );
}

#[test]
fn args_passed_through() {
    let o = sample();
    assert_eq!(
        o.to_args_unchecked(),
        &vec!["--flag".to_string(), "value".to_string()]
    );
}
