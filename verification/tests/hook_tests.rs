use permission_gateway::PermissionStorage;

#[test]
fn test_generate_hook_settings() {
    let hook_path = "/path/to/permission-proxy.py";
    let port = 8765;

    let result = PermissionStorage::generate_hook_settings(hook_path, port);
    assert!(result.is_ok());

    let settings_json = result.unwrap();
    let settings: serde_json::Value = serde_json::from_str(&settings_json).unwrap();

    // Verify structure
    assert!(settings.get("hooks").is_some());
    assert!(settings["hooks"].get("PreToolUse").is_some());

    let pre_tool_use = settings["hooks"]["PreToolUse"].as_array().unwrap();
    assert_eq!(pre_tool_use.len(), 1);

    let hook_config = &pre_tool_use[0];
    assert_eq!(hook_config["matcher"], "*");
    assert!(hook_config["hooks"].is_array());

    let hooks = hook_config["hooks"].as_array().unwrap();
    assert_eq!(hooks.len(), 1);
    assert_eq!(hooks[0]["type"], "command");
    assert_eq!(hooks[0]["command"], format!("python {} {}", hook_path, port));
    assert_eq!(hooks[0]["timeout"], 300);
}

#[test]
fn test_generate_hook_settings_escapes_path() {
    let hook_path = "C:\\hooks\\proxy \"v2\".py";
    let result = PermissionStorage::generate_hook_settings(hook_path, 80);
    assert!(result.is_ok());

    let settings: serde_json::Value = serde_json::from_str(&result.unwrap()).unwrap();
    let command = settings["hooks"]["PreToolUse"][0]["hooks"][0]["command"]
        .as_str()
        .unwrap()
        .to_string();
    assert_eq!(command, format!("python {} {}", hook_path, 80));
}

#[test]
fn test_generate_hook_settings_port_digits() {
    for port in [0u16, 7, 80, 443, 8765, 65535] {
        let result = PermissionStorage::generate_hook_settings("/hook.py", port);
        let settings: serde_json::Value = serde_json::from_str(&result.unwrap()).unwrap();
        let command = settings["hooks"]["PreToolUse"][0]["hooks"][0]["command"]
            .as_str()
            .unwrap()
            .to_string();
        assert_eq!(command, format!("python /hook.py {}", port));
    }
}
