//! The audio diagnostics report: the audio hosts, their devices and, on
//! Windows, the state of the audio services.
use vstd::prelude::*;

use crate::text::{contains, contains_spec, decimal, push_decimal, push_str, string_from_chars};

verus! {

/// The default configuration of an input device.
pub struct DeviceConfig {
    pub sample_rate: u32,
    /// The sample format, as its debug formatting names it.
    pub sample_format: String,
    pub channels: u16,
}

/// What is known of an input device.
pub struct InputDeviceInfo {
    /// Its name, or `None` when it could not be read.
    pub name: Option<String>,
    /// Its default input configuration, or `None` when it could not be read.
    pub config: Option<DeviceConfig>,
}

/// What is known of an audio host.
pub struct HostInfo {
    /// The host's id, as its debug formatting names it.
    pub id: String,
    /// Its input devices, or the error listing them gave.
    pub inputs: Result<Vec<InputDeviceInfo>, String>,
    /// The name of its default input device (`Unknown` when unreadable), or
    /// `None` when it has none.
    pub default_input: Option<String>,
    /// The number of its output devices, or the error listing them gave.
    pub outputs: Result<usize, String>,
}

/// Outputs of the Windows service queries: the query of the audio service
/// (its output, or the error running it gave) and of the remote desktop
/// service (its output, or `None` when it could not run).
pub struct ServiceQueries {
    pub audio: Result<String, String>,
    pub remote_desktop: Option<String>,
}

/// The line of input device `i`.
pub open spec fn device_line(i: int, d: InputDeviceInfo) -> Seq<char> {
    match d.name {
        Some(name) => match d.config {
            Some(c) => "    ["@ + decimal(i as nat) + "] "@ + name@ + " ("@ + decimal(c.sample_rate as nat)
                + "Hz, "@ + c.sample_format@ + ", "@ + decimal(c.channels as nat) + "ch)\n"@,
            None => "    ["@ + decimal(i as nat) + "] "@ + name@ + "\n"@,
        },
        None => "    ["@ + decimal(i as nat) + "] [无法获取名称]\n"@,
    }
}

/// The lines of the input devices, numbered from 0.
pub open spec fn device_lines(devs: Seq<InputDeviceInfo>) -> Seq<char>
    decreases devs.len(),
{
    if devs.len() == 0 {
        Seq::empty()
    } else {
        device_lines(devs.drop_last()) + device_line(devs.len() - 1, devs.last())
    }
}

/// The input-device lines of a host.
pub open spec fn inputs_part(inputs: Result<Vec<InputDeviceInfo>, String>) -> Seq<char> {
    match inputs {
        Ok(devs) => "  输入设备: "@ + decimal(devs@.len()) + " 个\n"@ + device_lines(devs@),
        Err(e) => "  输入设备错误: "@ + e@ + "\n"@,
    }
}

/// The default-input line of a host.
pub open spec fn default_part(default_input: Option<String>) -> Seq<char> {
    match default_input {
        Some(name) => "  默认输入: "@ + name@ + "\n"@,
        None => "  默认输入: [无]\n"@,
    }
}

/// The output-device line of a host.
pub open spec fn outputs_part(outputs: Result<usize, String>) -> Seq<char> {
    match outputs {
        Ok(n) => "  输出设备: "@ + decimal(n as nat) + " 个\n"@,
        Err(e) => "  输出设备错误: "@ + e@ + "\n"@,
    }
}

/// The section of one host.
pub open spec fn host_section(h: HostInfo) -> Seq<char> {
    "--- "@ + h.id@ + " 主机 ---\n"@ + inputs_part(h.inputs) + default_part(h.default_input)
        + outputs_part(h.outputs) + "\n"@
}

/// The sections of the hosts, or the error of the first host that could not
/// be opened.
pub open spec fn host_sections(hosts: Seq<Result<HostInfo, String>>) -> Result<Seq<char>, Seq<char>>
    decreases hosts.len(),
{
    if hosts.len() == 0 {
        Ok(Seq::empty())
    } else {
        match host_sections(hosts.drop_last()) {
            Err(e) => Err(e),
            Ok(text) => match hosts.last() {
                Ok(h) => Ok(text + host_section(h)),
                Err(e) => Err(e@),
            },
        }
    }
}

/// The section on the Windows services.
pub open spec fn services_section(q: ServiceQueries) -> Seq<char> {
    "=== Windows 音频服务状态 ===\n"@ + match q.audio {
        Ok(out) => if contains_spec(out@, "RUNNING"@) {
            "Windows Audio 服务: 运行中\n"@
        } else if contains_spec(out@, "STOPPED"@) {
            "Windows Audio 服务: 已停止\n"@
        } else {
            "Windows Audio 服务: 未知状态\n"@
        },
        Err(e) => "无法查询音频服务: "@ + e@ + "\n"@,
    } + match q.remote_desktop {
        Some(out) => if contains_spec(out@, "RUNNING"@) {
            "远程桌面服务: 运行中\n"@
        } else {
            Seq::empty()
        },
        None => Seq::empty(),
    }
}

/// The whole report, or the error of the first host that could not be
/// opened.
pub open spec fn report_spec(
    default_host: Seq<char>,
    available_hosts: Seq<char>,
    hosts: Seq<Result<HostInfo, String>>,
    services: Option<ServiceQueries>,
) -> Result<Seq<char>, Seq<char>> {
    match host_sections(hosts) {
        Err(e) => Err(e),
        Ok(text) => Ok("=== CPAL 音频后端 ===\n"@ + "默认主机: "@ + default_host + "\n"@ + "可用主机: "@
            + available_hosts + "\n\n"@ + text + match services {
            Some(q) => services_section(q),
            None => Seq::empty(),
        }),
    }
}

fn push_device_line(v: &mut Vec<char>, i: usize, d: &InputDeviceInfo)
    ensures
        final(v)@ == old(v)@ + device_line(i as int, *d),
{
    let ghost start = v@;
    push_str(v, "    [");
    push_decimal(v, i as u64);
    match &d.name {
        Some(name) => {
            push_str(v, "] ");
            push_str(v, name.as_str());
            match &d.config {
                Some(c) => {
                    push_str(v, " (");
                    push_decimal(v, c.sample_rate as u64);
                    push_str(v, "Hz, ");
                    push_str(v, c.sample_format.as_str());
                    push_str(v, ", ");
                    push_decimal(v, c.channels as u64);
                    push_str(v, "ch)\n");
                },
                None => {
                    push_str(v, "\n");
                },
            }
        },
        None => {
            push_str(v, "] [无法获取名称]\n");
        },
    }
    assert(v@ =~= start + device_line(i as int, *d));
}

fn push_inputs_part(v: &mut Vec<char>, inputs: &Result<Vec<InputDeviceInfo>, String>)
    ensures
        final(v)@ == old(v)@ + inputs_part(*inputs),
{
    let ghost start = v@;
    match inputs {
        Ok(devs) => {
            push_str(v, "  输入设备: ");
            push_decimal(v, devs.len() as u64);
            push_str(v, " 个\n");
            let ghost before_lines = v@;
            assert(devs@.take(0) =~= Seq::<InputDeviceInfo>::empty());
            for i in 0..devs.len()
                invariant
                    v@ == before_lines + device_lines(devs@.take(i as int)),
            {
                push_device_line(v, i, &devs[i]);
                proof {
                    assert(devs@.take(i + 1).drop_last() =~= devs@.take(i as int));
                }
            }
            proof {
                assert(devs@.take(devs@.len() as int) =~= devs@);
            }
        },
        Err(e) => {
            push_str(v, "  输入设备错误: ");
            push_str(v, e.as_str());
            push_str(v, "\n");
        },
    }
    assert(v@ =~= start + inputs_part(*inputs));
}

fn push_default_part(v: &mut Vec<char>, default_input: &Option<String>)
    ensures
        final(v)@ == old(v)@ + default_part(*default_input),
{
    let ghost start = v@;
    match default_input {
        Some(name) => {
            push_str(v, "  默认输入: ");
            push_str(v, name.as_str());
            push_str(v, "\n");
        },
        None => {
            push_str(v, "  默认输入: [无]\n");
        },
    }
    assert(v@ =~= start + default_part(*default_input));
}

fn push_outputs_part(v: &mut Vec<char>, outputs: &Result<usize, String>)
    ensures
        final(v)@ == old(v)@ + outputs_part(*outputs),
{
    let ghost start = v@;
    match outputs {
        Ok(n) => {
            push_str(v, "  输出设备: ");
            push_decimal(v, *n as u64);
            push_str(v, " 个\n");
        },
        Err(e) => {
            push_str(v, "  输出设备错误: ");
            push_str(v, e.as_str());
            push_str(v, "\n");
        },
    }
    assert(v@ =~= start + outputs_part(*outputs));
}

fn push_host_section(v: &mut Vec<char>, h: &HostInfo)
    ensures
        final(v)@ == old(v)@ + host_section(*h),
{
    let ghost start = v@;
    push_str(v, "--- ");
    push_str(v, h.id.as_str());
    push_str(v, " 主机 ---\n");
    push_inputs_part(v, &h.inputs);
    push_default_part(v, &h.default_input);
    push_outputs_part(v, &h.outputs);
    push_str(v, "\n");
    assert(v@ =~= start + host_section(*h));
}

fn push_services_section(v: &mut Vec<char>, q: &ServiceQueries)
    ensures
        final(v)@ == old(v)@ + services_section(*q),
{
    let ghost start = v@;
    push_str(v, "=== Windows 音频服务状态 ===\n");
    match &q.audio {
        Ok(out) => {
            if contains(out.as_str(), "RUNNING") {
                push_str(v, "Windows Audio 服务: 运行中\n");
            } else if contains(out.as_str(), "STOPPED") {
                push_str(v, "Windows Audio 服务: 已停止\n");
            } else {
                push_str(v, "Windows Audio 服务: 未知状态\n");
            }
        },
        Err(e) => {
            push_str(v, "无法查询音频服务: ");
            push_str(v, e.as_str());
            push_str(v, "\n");
        },
    }
    match &q.remote_desktop {
        Some(out) => {
            if contains(out.as_str(), "RUNNING") {
                push_str(v, "远程桌面服务: 运行中\n");
            }
        },
        None => {},
    }
    assert(v@ =~= start + services_section(*q));
}

/// The audio diagnostics report: a header naming the default and the
/// available hosts, a section per host, and the Windows services section
/// when the queries were made. The first host that could not be opened
/// turns the whole report into its error.
pub fn audio_report(
    default_host: &str,
    available_hosts: &str,
    hosts: &Vec<Result<HostInfo, String>>,
    services: &Option<ServiceQueries>,
) -> (r: Result<String, String>)
    ensures
        r is Ok <==> report_spec(default_host@, available_hosts@, hosts@, *services) is Ok,
        r matches Ok(t) ==> report_spec(default_host@, available_hosts@, hosts@, *services) == Ok::<
            Seq<char>,
            Seq<char>,
        >(t@),
        r matches Err(e) ==> report_spec(default_host@, available_hosts@, hosts@, *services) == Err::<
            Seq<char>,
            Seq<char>,
        >(e@),
{
    let mut sections: Vec<char> = Vec::new();
    assert(hosts@.take(0) =~= Seq::<Result<HostInfo, String>>::empty());
    for i in 0..hosts.len()
        invariant
            host_sections(hosts@.take(i as int)) == Ok::<Seq<char>, Seq<char>>(sections@),
    {
        proof {
            assert(hosts@.take(i + 1).drop_last() =~= hosts@.take(i as int));
        }
        match &hosts[i] {
            Ok(h) => {
                push_host_section(&mut sections, h);
            },
            Err(e) => {
                proof {
                    lemma_host_sections_stop(hosts@, i as int);
                }
                return Err(e.clone());
            },
        }
    }
    proof {
        assert(hosts@.take(hosts@.len() as int) =~= hosts@);
    }
    let mut v: Vec<char> = Vec::new();
    push_str(&mut v, "=== CPAL 音频后端 ===\n");
    push_str(&mut v, "默认主机: ");
    push_str(&mut v, default_host);
    push_str(&mut v, "\n");
    push_str(&mut v, "可用主机: ");
    push_str(&mut v, available_hosts);
    push_str(&mut v, "\n\n");
    let ghost before = v@;
    for i in 0..sections.len()
        invariant
            v@ == before + sections@.take(i as int),
    {
        v.push(sections[i]);
        proof {
            assert(sections@.take(i + 1) =~= sections@.take(i as int).push(sections@[i as int]));
        }
    }
    proof {
        assert(sections@.take(sections@.len() as int) =~= sections@);
    }
    match services {
        Some(q) => push_services_section(&mut v, q),
        None => {},
    }
    assert(Ok::<Seq<char>, Seq<char>>(v@) == report_spec(default_host@, available_hosts@, hosts@, *services));
    Ok(string_from_chars(v.as_slice()))
}

/// Whether some stretch of `out` is exactly `word`.
pub open spec fn has_stretch(out: Seq<char>, word: Seq<char>) -> bool {
    exists|i: int| 0 <= i && i + word.len() <= out.len() && #[trigger] out.subrange(i, i + word.len()) == word
}

/// The audio service line follows the query output: the service is running
/// whenever the output holds `RUNNING` anywhere; it is stopped only when the
/// output holds `STOPPED` and not `RUNNING`; otherwise its state is unknown.
/// A failed query is reported with its error.
pub proof fn lemma_audio_service_line(q: ServiceQueries)
    requires
        q.remote_desktop is None,
    ensures
        q.audio matches Ok(out) ==> (has_stretch(out@, "RUNNING"@) ==> services_section(q)
            == "=== Windows 音频服务状态 ===\n"@ + "Windows Audio 服务: 运行中\n"@),
        q.audio matches Ok(out) ==> (!has_stretch(out@, "RUNNING"@) && has_stretch(out@, "STOPPED"@)
            ==> services_section(q) == "=== Windows 音频服务状态 ===\n"@ + "Windows Audio 服务: 已停止\n"@),
        q.audio matches Ok(out) ==> (!has_stretch(out@, "RUNNING"@) && !has_stretch(out@, "STOPPED"@)
            ==> services_section(q) == "=== Windows 音频服务状态 ===\n"@ + "Windows Audio 服务: 未知状态\n"@),
        q.audio matches Err(e) ==> services_section(q) == "=== Windows 音频服务状态 ===\n"@
            + "无法查询音频服务: "@ + e@ + "\n"@,
{
    match q.audio {
        Ok(out) => {
            if has_stretch(out@, "RUNNING"@) {
                let i = choose|i: int|
                    0 <= i && i + "RUNNING"@.len() <= out@.len() && #[trigger] out@.subrange(
                        i,
                        i + "RUNNING"@.len(),
                    ) == "RUNNING"@;
                crate::text::lemma_contains_stretch(out@, "RUNNING"@, i);
            } else {
                crate::text::lemma_contains_none(out@, "RUNNING"@);
                if has_stretch(out@, "STOPPED"@) {
                    let i = choose|i: int|
                        0 <= i && i + "STOPPED"@.len() <= out@.len() && #[trigger] out@.subrange(
                            i,
                            i + "STOPPED"@.len(),
                        ) == "STOPPED"@;
                    crate::text::lemma_contains_stretch(out@, "STOPPED"@, i);
                } else {
                    crate::text::lemma_contains_none(out@, "STOPPED"@);
                }
            }
        },
        Err(e) => {
            assert(services_section(q) =~= "=== Windows 音频服务状态 ===\n"@ + "无法查询音频服务: "@ + e@ + "\n"@);
        },
    }
}

/// The remote desktop line: it says the service runs exactly when its query
/// output holds `RUNNING` anywhere, and is absent otherwise or when the
/// query could not run.
pub proof fn lemma_remote_desktop_line(q: ServiceQueries)
    ensures
        q.remote_desktop matches Some(out) ==> (has_stretch(out@, "RUNNING"@) ==> services_section(q)
            == services_section((ServiceQueries { audio: q.audio, remote_desktop: None }))
            + "远程桌面服务: 运行中\n"@),
        q.remote_desktop matches Some(out) ==> (!has_stretch(out@, "RUNNING"@) ==> services_section(q)
            == services_section((ServiceQueries { audio: q.audio, remote_desktop: None }))),
        q.remote_desktop is None ==> services_section(q) == services_section(
            (ServiceQueries { audio: q.audio, remote_desktop: None }),
        ),
{
    let q0 = ServiceQueries { audio: q.audio, remote_desktop: None };
    match q.remote_desktop {
        Some(out) => {
            if has_stretch(out@, "RUNNING"@) {
                let i = choose|i: int|
                    0 <= i && i + "RUNNING"@.len() <= out@.len() && #[trigger] out@.subrange(
                        i,
                        i + "RUNNING"@.len(),
                    ) == "RUNNING"@;
                crate::text::lemma_contains_stretch(out@, "RUNNING"@, i);
                assert(services_section(q) =~= services_section(q0) + "远程桌面服务: 运行中\n"@);
            } else {
                crate::text::lemma_contains_none(out@, "RUNNING"@);
                assert(services_section(q) =~= services_section(q0));
            }
        },
        None => {},
    }
}

/// Once a host fails, the report is that host's error, whatever follows.
proof fn lemma_host_sections_stop(hosts: Seq<Result<HostInfo, String>>, i: int)
    requires
        0 <= i < hosts.len(),
        host_sections(hosts.take(i)) is Ok,
        hosts[i] is Err,
    ensures
        host_sections(hosts) == Err::<Seq<char>, Seq<char>>(hosts[i]->Err_0@),
    decreases hosts.len() - i,
{
    assert(hosts.take(i + 1).drop_last() =~= hosts.take(i));
    if i + 1 < hosts.len() {
        lemma_host_sections_err_persists(hosts, i + 1);
    } else {
        assert(hosts.take(i + 1) =~= hosts);
    }
}

proof fn lemma_host_sections_err_persists(hosts: Seq<Result<HostInfo, String>>, k: int)
    requires
        0 < k <= hosts.len(),
        host_sections(hosts.take(k)) is Err,
    ensures
        host_sections(hosts) == host_sections(hosts.take(k)),
    decreases hosts.len() - k,
{
    if k < hosts.len() {
        assert(hosts.take(k + 1).drop_last() =~= hosts.take(k));
        lemma_host_sections_err_persists(hosts, k + 1);
    } else {
        assert(hosts.take(k) =~= hosts);
    }
}

/// The host sections are there exactly when every host could be opened.
proof fn lemma_host_sections_ok_iff(hosts: Seq<Result<HostInfo, String>>)
    ensures
        host_sections(hosts) is Ok <==> forall|i: int| 0 <= i < hosts.len() ==> #[trigger] hosts[i] is Ok,
    decreases hosts.len(),
{
    if hosts.len() > 0 {
        let init = hosts.drop_last();
        lemma_host_sections_ok_iff(init);
        assert forall|i: int| 0 <= i < init.len() implies #[trigger] init[i] == hosts[i] by {}
        if !(host_sections(init) is Ok) {
            let i = choose|i: int| 0 <= i < init.len() && !(#[trigger] init[i] is Ok);
            assert(hosts[i] == init[i]);
        } else if hosts.last() is Ok {
            assert forall|i: int| 0 <= i < hosts.len() implies #[trigger] hosts[i] is Ok by {
                if i < init.len() {
                    assert(init[i] == hosts[i]);
                }
            }
        } else {
            assert(!(hosts[hosts.len() - 1] is Ok));
        }
    }
}

/// The report fails exactly when some host cannot be opened, and then with
/// the error of the first such host.
pub proof fn lemma_first_failed_host(hosts: Seq<Result<HostInfo, String>>)
    ensures
        host_sections(hosts) is Ok <==> forall|i: int| 0 <= i < hosts.len() ==> #[trigger] hosts[i] is Ok,
        forall|i: int|
            0 <= i < hosts.len() && #[trigger] hosts[i] is Err && (forall|j: int| 0 <= j < i ==> hosts[j] is Ok)
                ==> host_sections(hosts) == Err::<Seq<char>, Seq<char>>(hosts[i]->Err_0@),
{
    lemma_host_sections_ok_iff(hosts);
    assert forall|i: int|
        0 <= i < hosts.len() && #[trigger] hosts[i] is Err && (forall|j: int| 0 <= j < i ==> hosts[j] is Ok)
            implies host_sections(hosts) == Err::<Seq<char>, Seq<char>>(hosts[i]->Err_0@) by {
        let pre = hosts.take(i);
        lemma_host_sections_ok_iff(pre);
        assert forall|j: int| 0 <= j < pre.len() implies #[trigger] pre[j] is Ok by {
            assert(pre[j] == hosts[j]);
        }
        lemma_host_sections_stop(hosts, i);
    }
}

} // verus!
