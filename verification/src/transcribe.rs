//! Speech recognition through the local services: which backend is tried
//! when, what is sent to each, and how each reply is read.
use vstd::prelude::*;

use crate::text::{forward_slashes, forward_slashes_spec, push_str, string_from_chars, trim, trimmed};

verus! {

/// Address that answers 200 when the local recognition service runs.
pub const SERVICE_URL: &'static str = "http://localhost:10095/";

/// Endpoint of the service that transcribes a file named by its path.
pub const TRANSCRIBE_LOCAL_URL: &'static str = "http://localhost:10095/api/transcribe/local";

/// Endpoint of the service that transcribes WAVE bytes posted to it.
pub const TRANSCRIBE_URL: &'static str = "http://localhost:10095/api/transcribe";

/// The recognition backends, in the order they are tried.
#[derive(Clone, Copy)]
pub enum Backend {
    /// The Node.js service, given the path of the recording.
    NodeService,
    /// The same service over HTTP, given the bytes of the recording.
    HttpService,
    /// The Python recognizer run in a fresh interpreter.
    Python,
}

/// What to do after an attempt: try another backend, take the text a
/// backend recognized, or give up because every backend failed.
pub enum Attempt {
    Try(Backend),
    Done(String),
    AllFailed,
}

/// Text stored (and not typed) when every backend has failed.
pub open spec fn all_failed_text() -> Seq<char> {
    "[语音识别服务未启动，请先运行: cd src-nodejs && npm install && npm start]"@
}

/// JSON text of a string: quoted, with `"` and `\` escaped, the control
/// characters with short escapes written so, and the other characters below
/// U+0020 written as `\u00XX` with lower-case hex digits.
pub open spec fn json_escape_char(c: char) -> Seq<char> {
    let u = c as u32;
    if c == '"' {
        seq!['\\', '"']
    } else if c == '\\' {
        seq!['\\', '\\']
    } else if u == 0x08 {
        seq!['\\', 'b']
    } else if u == 0x09 {
        seq!['\\', 't']
    } else if u == 0x0a {
        seq!['\\', 'n']
    } else if u == 0x0c {
        seq!['\\', 'f']
    } else if u == 0x0d {
        seq!['\\', 'r']
    } else if u < 0x20 {
        seq!['\\', 'u', '0', '0', hex_digit((u / 16) as int), hex_digit((u % 16) as int)]
    } else {
        seq![c]
    }
}

/// Lower-case hexadecimal digit of `d` (0 to 15).
pub open spec fn hex_digit(d: int) -> char {
    if d < 10 {
        ((48 + d) as u8) as char
    } else {
        ((87 + d) as u8) as char
    }
}

/// The escaped contents of a JSON string.
pub open spec fn json_escape(s: Seq<char>) -> Seq<char>
    decreases s.len(),
{
    if s.len() == 0 {
        Seq::empty()
    } else {
        json_escape(s.drop_last()) + json_escape_char(s.last())
    }
}

/// A JSON string literal holding `s`.
pub open spec fn json_string(s: Seq<char>) -> Seq<char> {
    seq!['"'] + json_escape(s) + seq!['"']
}

/// Value of a hexadecimal digit character, or -1 for any other character.
pub open spec fn hex_value(c: char) -> int {
    let u = c as u32;
    if 48 <= u <= 57 {
        u - 48
    } else if 97 <= u <= 102 {
        u - 87
    } else if 65 <= u <= 70 {
        u - 55
    } else {
        -1
    }
}

/// The code point a piece of a JSON string literal stands for, as a JSON
/// reader takes it: a lone character other than `"`, `\` and the control
/// characters below U+0020 stands for itself; `\` followed by one of
/// `" \ / b f n r t` stands for the character that escape names; `\u` and
/// four hexadecimal digits stand for their value. Anything else is not a
/// valid piece.
pub open spec fn json_piece_value(e: Seq<char>) -> Option<u32> {
    if e.len() == 1 {
        if e[0] != '"' && e[0] != '\\' && (e[0] as u32) >= 0x20 {
            Some(e[0] as u32)
        } else {
            None
        }
    } else if e.len() == 2 && e[0] == '\\' {
        if e[1] == '"' {
            Some(0x22)
        } else if e[1] == '\\' {
            Some(0x5c)
        } else if e[1] == '/' {
            Some(0x2f)
        } else if e[1] == 'b' {
            Some(0x08)
        } else if e[1] == 'f' {
            Some(0x0c)
        } else if e[1] == 'n' {
            Some(0x0a)
        } else if e[1] == 'r' {
            Some(0x0d)
        } else if e[1] == 't' {
            Some(0x09)
        } else {
            None
        }
    } else if e.len() == 6 && e[0] == '\\' && e[1] == 'u' && hex_value(e[2]) >= 0 && hex_value(e[3]) >= 0
        && hex_value(e[4]) >= 0 && hex_value(e[5]) >= 0 {
        Some(
            (hex_value(e[2]) * 4096 + hex_value(e[3]) * 256 + hex_value(e[4]) * 16 + hex_value(
                e[5],
            )) as u32,
        )
    } else {
        None
    }
}

/// Each character is written as a valid piece of a JSON string literal that
/// a JSON reader takes back as that very character.
pub proof fn lemma_json_escape_reads_back(c: char)
    ensures
        json_piece_value(json_escape_char(c)) == Some(c as u32),
{
    let u = c as u32;
    if u < 0x20 && u != 0x08 && u != 0x09 && u != 0x0a && u != 0x0c && u != 0x0d {
        let hi = (u / 16) as int;
        let lo = (u % 16) as int;
        assert(hi < 2 && lo < 16);
        assert(hex_value(hex_digit(hi)) == hi);
        assert(hex_value(hex_digit(lo)) == lo);
        assert(hex_value('0') == 0);
        let e = json_escape_char(c);
        assert(e.len() == 6);
        assert(e[2] == '0' && e[3] == '0' && e[4] == hex_digit(hi) && e[5] == hex_digit(lo));
        assert(hi * 16 + lo == u);
    }
}

/// Calls `serde_json::to_string` on a `&str`. Its source writes the string
/// between double quotes, escaping as `json_string` says; serializing a
/// string does not fail.
#[verifier::external_body]
fn json_quote(s: &str) -> (q: String)
    ensures
        q@ == json_string(s@),
{
    serde_json::to_string(s).unwrap_or_default()
}

/// What `serde_json::from_str::<Value>(text)` followed by `get(key)` and
/// `as_bool` gives: `None` unless `text` is JSON with a boolean member
/// `key` at the top level.
pub uninterp spec fn json_bool_member(text: Seq<char>, key: Seq<char>) -> Option<bool>;

/// What `serde_json::from_str::<Value>(text)` followed by `get(key)` and
/// `as_str` gives: `None` unless `text` is JSON with a string member `key`
/// at the top level.
pub uninterp spec fn json_str_member(text: Seq<char>, key: Seq<char>) -> Option<Seq<char>>;

/// Parses `text` with `serde_json::from_str::<serde_json::Value>` and reads
/// the member `key` with `Value::get` and `Value::as_bool`. The result is a
/// function of `text` and `key` alone, named by `json_bool_member`; what it
/// is on given values is left to serde_json.
#[verifier::external_body]
fn read_bool_member(text: &str, key: &str) -> (r: Option<bool>)
    ensures
        r == json_bool_member(text@, key@),
{
    match serde_json::from_str::<serde_json::Value>(text) {
        Ok(v) => match v.get(key) {
            Some(m) => m.as_bool(),
            None => None,
        },
        Err(_) => None,
    }
}

/// Parses `text` with `serde_json::from_str::<serde_json::Value>` and reads
/// the member `key` with `Value::get` and `Value::as_str`. The result is a
/// function of `text` and `key` alone, named by `json_str_member`; what it
/// is on given values is left to serde_json.
#[verifier::external_body]
fn read_str_member(text: &str, key: &str) -> (r: Option<String>)
    ensures
        r is Some <==> json_str_member(text@, key@) is Some,
        r matches Some(t) ==> json_str_member(text@, key@) == Some(t@),
{
    match serde_json::from_str::<serde_json::Value>(text) {
        Ok(v) => match v.get(key) {
            Some(m) => match m.as_str() {
                Some(t) => Some(t.to_string()),
                None => None,
            },
            None => None,
        },
        Err(_) => None,
    }
}

/// Whether the output of the status probe (curl printing the HTTP code)
/// says the service runs: it is `200` apart from surrounding white space.
pub fn service_is_up(status_output: &str) -> (up: bool)
    ensures
        up == (trimmed(status_output@) == "200"@),
{
    let t = trim(status_output);
    let expected = "200".to_string();
    t == expected
}

/// The check before the Node.js backend: the probe must have run and
/// reported the service up.
pub fn node_precheck(probe: Option<String>) -> (r: Result<(), String>)
    ensures
        probe is None ==> (r matches Err(e) && e@ == "无法检查服务状态"@),
        probe matches Some(out) ==> (trimmed(out@) == "200"@ <==> r is Ok),
        probe matches Some(out) ==> (trimmed(out@) != "200"@ ==> (r matches Err(e) && e@
            == "Node.js 服务未运行"@)),
{
    match probe {
        None => Err("无法检查服务状态".to_string()),
        Some(out) => {
            if service_is_up(out.as_str()) {
                Ok(())
            } else {
                Err("Node.js 服务未运行".to_string())
            }
        },
    }
}

/// The check before the HTTP backend: the probe must have run and reported
/// the service up.
pub fn http_precheck(probe: Option<String>) -> (r: Result<(), String>)
    ensures
        r is Ok <==> (probe matches Some(out) && trimmed(out@) == "200"@),
        r matches Err(e) ==> e@ == "HTTP 服务不可用"@,
{
    if let Some(out) = probe {
        if service_is_up(out.as_str()) {
            return Ok(());
        }
    }
    Err("HTTP 服务不可用".to_string())
}

/// The request body for the Node.js backend: a JSON object whose member
/// `audioPath` is the recording's path with forward slashes.
pub open spec fn node_request_spec(wav_path: Seq<char>) -> Seq<char> {
    "{\"audioPath\":"@ + json_string(forward_slashes_spec(wav_path)) + "}"@
}

/// The request body for the Node.js backend.
pub fn node_request_body(wav_path: &str) -> (body: String)
    ensures
        body@ == node_request_spec(wav_path@),
{
    let path = forward_slashes(wav_path);
    let quoted = json_quote(path.as_str());
    let mut v: Vec<char> = Vec::new();
    push_str(&mut v, "{\"audioPath\":");
    push_str(&mut v, quoted.as_str());
    push_str(&mut v, "}");
    string_from_chars(v.as_slice())
}

/// Reading the Node.js backend's reply from its members: the text when
/// `success` is `true` and `text` is a string, a failure otherwise.
pub fn node_reply(success: Option<bool>, text: Option<String>) -> (r: Result<String, String>)
    ensures
        success == Some(true) && text is Some ==> (r matches Ok(t) && text == Some(t)),
        !(success == Some(true) && text is Some) ==> (r matches Err(e) && e@ == "Node.js 识别失败"@),
{
    if let Some(true) = success {
        if let Some(t) = text {
            return Ok(t);
        }
    }
    Err("Node.js 识别失败".to_string())
}

/// The Node.js backend's reply, parsed as JSON.
pub fn node_response_text(response: &str) -> (r: Result<String, String>)
    ensures
        json_bool_member(response@, "success"@) == Some(true) && json_str_member(response@, "text"@)
            is Some ==> (r matches Ok(t) && json_str_member(response@, "text"@) == Some(t@)),
        !(json_bool_member(response@, "success"@) == Some(true) && json_str_member(
            response@,
            "text"@,
        ) is Some) ==> (r matches Err(e) && e@ == "Node.js 识别失败"@),
{
    let success = read_bool_member(response, "success");
    let text = read_str_member(response, "text");
    node_reply(success, text)
}

/// Reading the HTTP backend's reply: when curl succeeded, the `text` member
/// if the output is JSON with one, else the trimmed output; when it failed,
/// its error output.
pub fn http_reply(curl_ok: bool, text_member: Option<String>, stdout: &str, stderr: &str) -> (r: Result<
    String,
    String,
>)
    ensures
        curl_ok && text_member is Some ==> (r matches Ok(t) && text_member == Some(t)),
        curl_ok && text_member is None ==> (r matches Ok(t) && t@ == trimmed(stdout@)),
        !curl_ok ==> (r matches Err(e) && e@ == stderr@),
{
    if curl_ok {
        match text_member {
            Some(t) => Ok(t),
            None => Ok(trim(stdout)),
        }
    } else {
        Err(stderr.to_string())
    }
}

/// The HTTP backend's reply, parsed as JSON.
pub fn http_response_text(curl_ok: bool, stdout: &str, stderr: &str) -> (r: Result<String, String>)
    ensures
        curl_ok && json_str_member(stdout@, "text"@) is Some ==> (r matches Ok(t) && json_str_member(
            stdout@,
            "text"@,
        ) == Some(t@)),
        curl_ok && json_str_member(stdout@, "text"@) is None ==> (r matches Ok(t) && t@ == trimmed(
            stdout@,
        )),
        !curl_ok ==> (r matches Err(e) && e@ == stderr@),
{
    let text = if curl_ok {
        read_str_member(stdout, "text")
    } else {
        None
    };
    http_reply(curl_ok, text, stdout, stderr)
}

/// The Python interpreters to try, in order: the project's virtual
/// environment first when it exists, then the usual command names.
pub fn python_commands(venv_python: Option<String>) -> (cmds: Vec<String>)
    ensures
        venv_python matches Some(p) ==> cmds@.len() == 4 && cmds@[0] == p && cmds@[1]@ == "python"@
            && cmds@[2]@ == "python3"@ && cmds@[3]@ == "py"@,
        venv_python is None ==> cmds@.len() == 3 && cmds@[0]@ == "python"@ && cmds@[1]@
            == "python3"@ && cmds@[2]@ == "py"@,
{
    let mut cmds: Vec<String> = Vec::new();
    if let Some(p) = venv_python {
        cmds.push(p);
    }
    cmds.push("python".to_string());
    cmds.push("python3".to_string());
    cmds.push("py".to_string());
    cmds
}

/// The program the Python backend runs: it loads the recognizer from the
/// command-line tool's directory and prints the text of the recording.
pub open spec fn python_script_spec(cli_dir: Seq<char>, audio_path: Seq<char>) -> Seq<char> {
    "import sys\ntry:\n    sys.path.insert(0, r'"@ + forward_slashes_spec(cli_dir)
        + "')\n    from app.funasr_server import FunASRServer\n    s = FunASRServer()\n    s.initialize()\n    result = s.transcribe_audio(r'"@
        + forward_slashes_spec(audio_path)
        + "')\n    print(result.get('text', ''))\nexcept Exception as ex:\n    print(f'ERROR: {ex}', file=sys.stderr)\n    sys.exit(1)\n"@
}

/// The program the Python backend runs, with both paths in forward slashes.
pub fn python_script(cli_dir: &str, audio_path: &str) -> (script: String)
    ensures
        script@ == python_script_spec(cli_dir@, audio_path@),
{
    let cli = forward_slashes(cli_dir);
    let audio = forward_slashes(audio_path);
    let mut v: Vec<char> = Vec::new();
    push_str(&mut v, "import sys\ntry:\n    sys.path.insert(0, r'");
    push_str(&mut v, cli.as_str());
    push_str(
        &mut v,
        "')\n    from app.funasr_server import FunASRServer\n    s = FunASRServer()\n    s.initialize()\n    result = s.transcribe_audio(r'",
    );
    push_str(&mut v, audio.as_str());
    push_str(
        &mut v,
        "')\n    print(result.get('text', ''))\nexcept Exception as ex:\n    print(f'ERROR: {ex}', file=sys.stderr)\n    sys.exit(1)\n",
    );
    string_from_chars(v.as_slice())
}

/// The text one Python run gives: its trimmed output when it exited with
/// success, nothing otherwise (the next interpreter is then tried).
pub fn python_run_text(exit_ok: bool, stdout: &str) -> (t: Option<String>)
    ensures
        exit_ok ==> (t matches Some(s) && s@ == trimmed(stdout@)),
        !exit_ok ==> t is None,
{
    if exit_ok {
        Some(trim(stdout))
    } else {
        None
    }
}

/// The failure of the Python backend when no interpreter gave a text.
pub fn python_failure() -> (e: String)
    ensures
        e@ == "所有 Python 路径都失败"@,
{
    "所有 Python 路径都失败".to_string()
}

/// The first backend tried.
pub fn first_backend() -> (b: Backend)
    ensures
        b is NodeService,
{
    Backend::NodeService
}

/// After an attempt: a recognized text ends the search; a failure moves on
/// to the next backend, and after the last one the search has failed.
pub fn after_attempt(backend: Backend, result: Result<String, String>) -> (next: Attempt)
    ensures
        result matches Ok(t) ==> (next matches Attempt::Done(d) && d == t),
        result is Err ==> match backend {
            Backend::NodeService => next matches Attempt::Try(Backend::HttpService),
            Backend::HttpService => next matches Attempt::Try(Backend::Python),
            Backend::Python => next is AllFailed,
        },
{
    match result {
        Ok(t) => Attempt::Done(t),
        Err(_) => match backend {
            Backend::NodeService => Attempt::Try(Backend::HttpService),
            Backend::HttpService => Attempt::Try(Backend::Python),
            Backend::Python => Attempt::AllFailed,
        },
    }
}

/// The text stored and shown for a transcription, and whether it is typed
/// into the focused window, given the text a backend recognized (`None`
/// when every backend failed). Only a non-empty recognized text is typed;
/// an empty one is replaced by a notice, and a failed search by the notice
/// that no service runs, and neither notice is typed.
pub fn final_text(recognized: Option<String>) -> (r: (String, bool))
    ensures
        r.1 <==> (recognized matches Some(t) && t@.len() > 0),
        recognized matches Some(t) ==> (t@.len() > 0 ==> r.0 == t),
        recognized matches Some(t) ==> (t@.len() == 0 ==> r.0@ == "[识别结果为空]"@),
        recognized is None ==> r.0@ == all_failed_text(),
{
    match recognized {
        Some(text) => {
            if text.as_str().is_empty() {
                ("[识别结果为空]".to_string(), false)
            } else {
                (text, true)
            }
        },
        None => (
            "[语音识别服务未启动，请先运行: cd src-nodejs && npm install && npm start]".to_string(),
            false,
        ),
    }
}

/// Marker written to a transcript file while recognition runs.
pub fn pending_marker() -> (m: String)
    ensures
        m@ == "[识别中...]"@,
{
    "[识别中...]".to_string()
}

} // verus!
