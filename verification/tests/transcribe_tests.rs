use autotype::transcribe::{
    after_attempt, final_text, first_backend, http_precheck, http_response_text, node_precheck,
    node_reply, node_request_body, node_response_text, pending_marker, python_commands,
    python_failure, python_run_text, python_script, service_is_up, Attempt, Backend,
};

#[test]
fn service_up_only_on_200() {
    assert!(service_is_up("200"));
    assert!(service_is_up(" 200\n"));
    assert!(!service_is_up("404"));
    assert!(!service_is_up("2000"));
    assert!(!service_is_up(""));
}

#[test]
fn node_precheck_errors() {
    assert_eq!(node_precheck(None), Err("无法检查服务状态".to_string()));
    assert_eq!(node_precheck(Some("000".to_string())), Err("Node.js 服务未运行".to_string()));
    assert_eq!(node_precheck(Some("200".to_string())), Ok(()));
}

#[test]
fn http_precheck_errors() {
    assert_eq!(http_precheck(None), Err("HTTP 服务不可用".to_string()));
    assert_eq!(http_precheck(Some("503".to_string())), Err("HTTP 服务不可用".to_string()));
    assert_eq!(http_precheck(Some("200\r\n".to_string())), Ok(()));
}

#[test]
fn request_body_uses_forward_slashes() {
    assert_eq!(
        node_request_body("C:\\Users\\me\\Music\\VocoType\\20240101_120000.wav"),
        "{\"audioPath\":\"C:/Users/me/Music/VocoType/20240101_120000.wav\"}"
    );
}

#[test]
fn request_body_escapes_json() {
    assert_eq!(node_request_body("a\"b"), "{\"audioPath\":\"a\\\"b\"}");
    assert_eq!(node_request_body("x\ny\u{1}"), "{\"audioPath\":\"x\\ny\\u0001\"}");
    assert_eq!(node_request_body("录音.wav"), "{\"audioPath\":\"录音.wav\"}");
}

#[test]
fn node_reply_needs_success_and_text() {
    assert_eq!(node_reply(Some(true), Some("hi".to_string())), Ok("hi".to_string()));
    assert_eq!(node_reply(Some(false), Some("hi".to_string())), Err("Node.js 识别失败".to_string()));
    assert_eq!(node_reply(None, Some("hi".to_string())), Err("Node.js 识别失败".to_string()));
    assert_eq!(node_reply(Some(true), None), Err("Node.js 识别失败".to_string()));
}

#[test]
fn node_response_is_parsed() {
    assert_eq!(node_response_text(r#"{"success":true,"text":"你好"}"#), Ok("你好".to_string()));
    assert_eq!(
        node_response_text(r#"{"success":false,"text":"x"}"#),
        Err("Node.js 识别失败".to_string())
    );
    assert_eq!(node_response_text(r#"{"success":"true","text":"x"}"#), Err("Node.js 识别失败".to_string()));
    assert_eq!(node_response_text("not json"), Err("Node.js 识别失败".to_string()));
}

#[test]
fn http_response_prefers_text_member() {
    assert_eq!(http_response_text(true, r#"{"text":"hello"}"#, ""), Ok("hello".to_string()));
    assert_eq!(http_response_text(true, "  plain text \n", ""), Ok("plain text".to_string()));
    assert_eq!(http_response_text(true, r#"{"text":3}"#, ""), Ok("{\"text\":3}".to_string()));
    assert_eq!(http_response_text(false, "", "curl: (7) failed"), Err("curl: (7) failed".to_string()));
}

#[test]
fn python_commands_prefer_the_virtual_environment() {
    assert_eq!(python_commands(None), vec!["python", "python3", "py"]);
    assert_eq!(
        python_commands(Some("C:\\venv\\python.exe".to_string())),
        vec!["C:\\venv\\python.exe", "python", "python3", "py"]
    );
}

#[test]
fn python_script_holds_both_paths() {
    let script = python_script("C:\\work\\autotype\\cli", "D:\\rec\\a.wav");
    let expected = "import sys\ntry:\n    sys.path.insert(0, r'C:/work/autotype/cli')\n    from app.funasr_server import FunASRServer\n    s = FunASRServer()\n    s.initialize()\n    result = s.transcribe_audio(r'D:/rec/a.wav')\n    print(result.get('text', ''))\nexcept Exception as ex:\n    print(f'ERROR: {ex}', file=sys.stderr)\n    sys.exit(1)\n";
    assert_eq!(script, expected);
}

#[test]
fn python_run_output_is_trimmed() {
    assert_eq!(python_run_text(true, "\n 你好世界 \r\n"), Some("你好世界".to_string()));
    assert_eq!(python_run_text(false, "anything"), None);
    assert_eq!(python_failure(), "所有 Python 路径都失败");
}

#[test]
fn backends_are_tried_in_order() {
    let b = first_backend();
    assert!(matches!(b, Backend::NodeService));
    let next = after_attempt(b, Err("down".to_string()));
    assert!(matches!(next, Attempt::Try(Backend::HttpService)));
    let next = after_attempt(Backend::HttpService, Err("down".to_string()));
    assert!(matches!(next, Attempt::Try(Backend::Python)));
    assert!(matches!(after_attempt(Backend::Python, Err("down".to_string())), Attempt::AllFailed));
}

#[test]
fn a_success_ends_the_search() {
    match after_attempt(Backend::NodeService, Ok("好".to_string())) {
        Attempt::Done(t) => assert_eq!(t, "好"),
        _ => panic!("a success must end the search"),
    }
}

#[test]
fn empty_result_is_replaced_and_not_typed() {
    assert_eq!(final_text(Some(String::new())), ("[识别结果为空]".to_string(), false));
    assert_eq!(final_text(Some("你好".to_string())), ("你好".to_string(), true));
    assert_eq!(pending_marker(), "[识别中...]");
}

#[test]
fn all_failed_notice_is_stored_but_not_typed() {
    assert_eq!(
        final_text(None),
        (
            "[语音识别服务未启动，请先运行: cd src-nodejs && npm install && npm start]".to_string(),
            false
        )
    );
}
