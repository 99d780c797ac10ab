use autotype::diagnostics::{audio_report, DeviceConfig, HostInfo, InputDeviceInfo, ServiceQueries};

fn host() -> HostInfo {
    HostInfo {
        id: "Wasapi".to_string(),
        inputs: Ok(vec![
            InputDeviceInfo {
                name: Some("麦克风".to_string()),
                config: Some(DeviceConfig { sample_rate: 48000, sample_format: "F32".to_string(), channels: 2 }),
            },
            InputDeviceInfo { name: Some("Line In".to_string()), config: None },
            InputDeviceInfo { name: None, config: None },
        ]),
        default_input: Some("麦克风".to_string()),
        outputs: Ok(3),
    }
}

#[test]
fn report_lists_hosts_and_devices() {
    let r = audio_report("Wasapi", "[Wasapi]", &vec![Ok(host())], &None).unwrap();
    let expected = "=== CPAL 音频后端 ===\n默认主机: Wasapi\n可用主机: [Wasapi]\n\n--- Wasapi 主机 ---\n  输入设备: 3 个\n    [0] 麦克风 (48000Hz, F32, 2ch)\n    [1] Line In\n    [2] [无法获取名称]\n  默认输入: 麦克风\n  输出设备: 3 个\n\n";
    assert_eq!(r, expected);
}

#[test]
fn report_shows_listing_errors() {
    let h = HostInfo {
        id: "Alsa".to_string(),
        inputs: Err("backend gone".to_string()),
        default_input: None,
        outputs: Err("no outputs".to_string()),
    };
    let r = audio_report("Alsa", "[Alsa]", &vec![Ok(h)], &None).unwrap();
    let expected = "=== CPAL 音频后端 ===\n默认主机: Alsa\n可用主机: [Alsa]\n\n--- Alsa 主机 ---\n  输入设备错误: backend gone\n  默认输入: [无]\n  输出设备错误: no outputs\n\n";
    assert_eq!(r, expected);
}

#[test]
fn a_host_that_cannot_be_opened_fails_the_report() {
    let r = audio_report("Wasapi", "[Wasapi, Asio]", &vec![Ok(host()), Err("host unavailable".to_string()), Ok(host())], &None);
    assert_eq!(r, Err("host unavailable".to_string()));
}

#[test]
fn windows_services_section() {
    let q = ServiceQueries {
        audio: Ok("SERVICE_NAME: Audiosrv\n        STATE              : 4  RUNNING".to_string()),
        remote_desktop: Some("STATE : 1  STOPPED".to_string()),
    };
    let r = audio_report("Wasapi", "[]", &vec![], &Some(q)).unwrap();
    assert_eq!(
        r,
        "=== CPAL 音频后端 ===\n默认主机: Wasapi\n可用主机: []\n\n=== Windows 音频服务状态 ===\nWindows Audio 服务: 运行中\n"
    );
    let q = ServiceQueries { audio: Ok("STATE : 1  STOPPED".to_string()), remote_desktop: Some("RUNNING".to_string()) };
    let r = audio_report("W", "[]", &vec![], &Some(q)).unwrap();
    assert!(r.ends_with("Windows Audio 服务: 已停止\n远程桌面服务: 运行中\n"));
    let q = ServiceQueries { audio: Ok("???".to_string()), remote_desktop: None };
    let r = audio_report("W", "[]", &vec![], &Some(q)).unwrap();
    assert!(r.ends_with("Windows Audio 服务: 未知状态\n"));
    let q = ServiceQueries { audio: Err("not found".to_string()), remote_desktop: None };
    let r = audio_report("W", "[]", &vec![], &Some(q)).unwrap();
    assert!(r.ends_with("无法查询音频服务: not found\n"));
}
