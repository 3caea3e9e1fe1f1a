//! Settings of the captioning backends and the command lines and results of
//! the script-based ones.
use vstd::prelude::*;
use crate::captioner::CaptionResult;
use crate::text::{concat, trim, trim_str, chars_of, string_of, push_decimal, decimal};

verus! {

pub fn default_base_url() -> (r: String)
    ensures
        r@ == "http://localhost:1234"@,
{
    "http://localhost:1234".to_string()
}

pub fn default_max_tokens() -> (r: u32)
    ensures
        r == 300,
{
    300
}

pub fn default_timeout_secs() -> (r: u32)
    ensures
        r == crate::captioner::DEFAULT_TIMEOUT_SECS,
{
    crate::captioner::DEFAULT_TIMEOUT_SECS
}

pub fn default_batch_concurrency() -> (r: u32)
    ensures
        r == 1,
{
    1
}

pub fn default_python() -> (r: String)
    ensures
        r@ == "python"@,
{
    "python".to_string()
}

pub fn default_mode() -> (r: String)
    ensures
        r@ == "descriptive"@,
{
    "descriptive".to_string()
}

#[derive(Debug)]
pub struct LmStudioSettings {
    pub base_url: String,
    pub model: Option<String>,
}

#[derive(Debug)]
pub struct TestConnectionPayload {
    pub base_url: String,
}

#[derive(Debug)]
pub struct ConnectionStatus {
    pub connected: bool,
    pub models: Vec<String>,
    pub error: Option<String>,
}

#[derive(Debug)]
pub struct GenerateCaptionPayload {
    pub image_path: String,
    pub base_url: String,
    pub model: Option<String>,
    pub prompt: String,
    pub max_tokens: u32,
    /// Timeout of the request in seconds (taken within 1 to 600).
    pub timeout_secs: u32,
    /// Longest side the image is scaled down to before it is sent.
    pub max_image_dimension: Option<u32>,
}

#[derive(Debug)]
pub struct JoyCaptionSettings {
    /// The Python interpreter to run.
    pub python_path: String,
    /// The captioning script; the installed module where unset.
    pub script_path: Option<String>,
    /// Caption mode: "descriptive", "training", "booru", ...
    pub mode: String,
    pub low_vram: bool,
}

#[derive(Debug)]
pub struct JoyCaptionPayload {
    pub image_path: String,
    pub settings: JoyCaptionSettings,
}

#[derive(Debug)]
pub struct JoyCaptionResult {
    pub success: bool,
    pub caption: String,
    pub error: Option<String>,
}

#[derive(Debug)]
pub struct JoyCaptionBatchPayload {
    pub image_paths: Vec<String>,
    pub settings: JoyCaptionSettings,
}

#[derive(Debug)]
pub struct JoyCaptionBatchResult {
    pub path: String,
    pub success: bool,
    pub caption: String,
    pub error: Option<String>,
}

#[derive(Debug)]
pub struct Wd14Settings {
    pub python_path: String,
    pub script_path: Option<String>,
}

#[derive(Debug)]
pub struct Wd14Payload {
    pub image_path: String,
    pub settings: Wd14Settings,
}

#[derive(Debug)]
pub struct Wd14Result {
    pub success: bool,
    pub caption: String,
    pub error: Option<String>,
}

#[derive(Debug)]
pub struct JoyCaptionInstallProgress {
    pub stage: String,
    pub message: String,
    pub percent: u8,
}

#[derive(Debug)]
pub struct JoyCaptionInstallStatus {
    pub installed: bool,
    pub python_path: Option<String>,
    pub script_path: Option<String>,
    pub error: Option<String>,
}

#[derive(Debug)]
pub struct JoyCaptionInstallResult {
    pub success: bool,
    pub python_path: Option<String>,
    pub script_path: Option<String>,
    pub error: Option<String>,
}

#[derive(Debug)]
pub struct DetectFacesPayload {
    pub path: String,
}

/// `s` without trailing `/`.
pub open spec fn trim_end_slashes(s: Seq<char>) -> Seq<char>
    decreases s.len(),
{
    if s.len() > 0 && s.last() == '/' {
        trim_end_slashes(s.drop_last())
    } else {
        s
    }
}

fn endpoint(base_url: &str, path: &str) -> (r: String)
    ensures
        r@ == trim_end_slashes(base_url@) + path@,
{
    let c = chars_of(base_url);
    let mut n: usize = c.len();
    assert(c@.subrange(0, n as int) =~= c@);
    while n > 0 && c[n - 1] == '/'
        invariant
            n <= c@.len(),
            c@ == base_url@,
            trim_end_slashes(c@.subrange(0, n as int)) == trim_end_slashes(base_url@),
        decreases n,
    {
        assert(c@.subrange(0, n as int).drop_last() =~= c@.subrange(0, n - 1));
        n -= 1;
    }
    let head = string_of(crate::paths::copy_range(&c, 0, n).as_slice());
    concat(head.as_str(), path)
}

/// The address that lists the models of the server at `base_url`.
pub fn models_url(base_url: &str) -> (r: String)
    ensures
        r@ == trim_end_slashes(base_url@) + "/v1/models"@,
{
    endpoint(base_url, "/v1/models")
}

/// The address of the chat completions of the server at `base_url`.
pub fn chat_completions_url(base_url: &str) -> (r: String)
    ensures
        r@ == trim_end_slashes(base_url@) + "/v1/chat/completions"@,
{
    endpoint(base_url, "/v1/chat/completions")
}

/// The views of a list of arguments.
pub open spec fn arg_views(v: Seq<String>) -> Seq<Seq<char>> {
    crate::text::views(v)
}

/// The arguments that run JoyCaption on `image_path`: the script, or the
/// installed module, then the image and mode, and the low-VRAM switch.
pub open spec fn joycaption_arg_spec(script: Option<Seq<char>>, image_path: Seq<char>, mode: Seq<char>, low_vram: bool) -> Seq<Seq<char>> {
    let head = match script {
        Some(s) => seq![s],
        None => seq!["-m"@, "joycaption"@],
    };
    let body = head + seq!["--image"@, image_path, "--mode"@, mode];
    if low_vram {
        body.push("--low-vram"@)
    } else {
        body
    }
}

/// The arguments to the Python interpreter that caption `image_path` with JoyCaption.
pub fn joycaption_args(settings: &JoyCaptionSettings, image_path: &str) -> (r: Vec<String>)
    ensures
        arg_views(r@) == joycaption_arg_spec(
            match settings.script_path {
                Some(s) => Some(s@),
                None => None,
            },
            image_path@,
            settings.mode@,
            settings.low_vram,
        ),
{
    let mut r: Vec<String> = Vec::new();
    match &settings.script_path {
        Some(s) => r.push(s.clone()),
        None => {
            r.push("-m".to_string());
            r.push("joycaption".to_string());
        },
    }
    r.push("--image".to_string());
    r.push(image_path.to_string());
    r.push("--mode".to_string());
    r.push(settings.mode.clone());
    if settings.low_vram {
        r.push("--low-vram".to_string());
    }
    assert(arg_views(r@) =~= joycaption_arg_spec(
        match settings.script_path {
            Some(s) => Some(s@),
            None => None,
        },
        image_path@,
        settings.mode@,
        settings.low_vram,
    ));
    r
}

/// The arguments that run the WD14 tagger script on `image_path`, or the
/// failed result where no script is set.
pub fn wd14_args(settings: &Wd14Settings, image_path: &str) -> (r: Result<Vec<String>, Wd14Result>)
    ensures
        match settings.script_path {
            Some(s) if s@.len() > 0 => r is Ok && arg_views(r.unwrap()@) == seq![s@, "--image"@, image_path@],
            _ => (r matches Err(e) && !e.success && e.caption@.len() == 0 && (e.error matches Some(m) && m@ == "WD14 script path is not set. Set it in AI settings."@)),
        },
{
    match &settings.script_path {
        Some(s) if s.as_str().unicode_len() > 0 => {
            let mut r: Vec<String> = Vec::new();
            r.push(s.clone());
            r.push("--image".to_string());
            r.push(image_path.to_string());
            assert(arg_views(r@) =~= seq![s@, "--image"@, image_path@]);
            Ok(r)
        },
        _ => Err(Wd14Result {
            success: false,
            caption: String::new(),
            error: Some("WD14 script path is not set. Set it in AI settings.".to_string()),
        }),
    }
}

/// How an exit code is shown: `Some(n)` or `None`.
pub open spec fn exit_code_text(code: Option<i32>) -> Seq<char> {
    match code {
        Some(n) => if n < 0 {
            "Some(-"@ + decimal((-n) as nat) + ")"@
        } else {
            "Some("@ + decimal(n as nat) + ")"@
        },
        None => "None"@,
    }
}

fn exit_code_string(code: Option<i32>) -> (r: String)
    ensures
        r@ == exit_code_text(code),
{
    match code {
        Some(n) => {
            let mut v: Vec<char> = if n < 0 { chars_of("Some(-") } else { chars_of("Some(") };
            let m: u128 = if n < 0 { (-(n as i128)) as u128 } else { n as u128 };
            push_decimal(&mut v, m);
            v.push(')');
            proof { reveal_strlit(")"); }
            assert(v@ =~= exit_code_text(code));
            string_of(v.as_slice())
        },
        None => "None".to_string(),
    }
}

/// The outcome of a captioning script that ran: its output trimmed where it
/// succeeded; else its error output trimmed, or, where that is empty, the
/// exit code under `exited` ("JoyCaption exited with code: ").
pub open spec fn script_outcome(success: bool, stdout: Seq<char>, stderr: Seq<char>, exited: Seq<char>, code: Option<i32>) -> (bool, Seq<char>, Option<Seq<char>>) {
    if success {
        (true, trim(stdout), None)
    } else if stderr.len() == 0 {
        (false, Seq::empty(), Some(exited + exit_code_text(code)))
    } else {
        (false, Seq::empty(), Some(trim(stderr)))
    }
}

fn script_result(success: bool, stdout: &str, stderr: &str, exited: &str, code: Option<i32>) -> (r: CaptionResult)
    ensures
        ({
            let (ok, caption, error) = script_outcome(success, stdout@, stderr@, exited@, code);
            r.success == ok && r.caption@ == caption && match r.error {
                Some(e) => error == Some(e@),
                None => error is None,
            }
        }),
{
    if success {
        CaptionResult { success: true, caption: trim_str(stdout), error: None }
    } else if stderr.unicode_len() == 0 {
        let c = exit_code_string(code);
        CaptionResult { success: false, caption: String::new(), error: Some(concat(exited, c.as_str())) }
    } else {
        CaptionResult { success: false, caption: String::new(), error: Some(trim_str(stderr)) }
    }
}

/// The result of a JoyCaption run.
pub fn joycaption_result(success: bool, stdout: &str, stderr: &str, code: Option<i32>) -> (r: JoyCaptionResult)
    ensures
        ({
            let (ok, caption, error) = script_outcome(success, stdout@, stderr@, "JoyCaption exited with code: "@, code);
            r.success == ok && r.caption@ == caption && match r.error {
                Some(e) => error == Some(e@),
                None => error is None,
            }
        }),
{
    let c = script_result(success, stdout, stderr, "JoyCaption exited with code: ", code);
    JoyCaptionResult { success: c.success, caption: c.caption, error: c.error }
}

/// The result of a WD14 tagger run.
pub fn wd14_result(success: bool, stdout: &str, stderr: &str, code: Option<i32>) -> (r: Wd14Result)
    ensures
        ({
            let (ok, caption, error) = script_outcome(success, stdout@, stderr@, "WD14 script exited with code: "@, code);
            r.success == ok && r.caption@ == caption && match r.error {
                Some(e) => error == Some(e@),
                None => error is None,
            }
        }),
{
    let c = script_result(success, stdout, stderr, "WD14 script exited with code: ", code);
    Wd14Result { success: c.success, caption: c.caption, error: c.error }
}

/// The batch record of one JoyCaption run.
pub fn joycaption_batch_result(path: String, r: JoyCaptionResult) -> (b: JoyCaptionBatchResult)
    ensures
        b.path@ == path@,
        b.success == r.success,
        b.caption@ == r.caption@,
        b.error == r.error,
{
    JoyCaptionBatchResult { path, success: r.success, caption: r.caption, error: r.error }
}

/// Where the installed interpreter and inference script of JoyCaption are,
/// under the install directory `root`.
pub fn install_paths(root: &str, windows: bool) -> (r: (String, String))
    ensures
        windows ==> r.0@ == root@ + "\\venv\\Scripts\\python.exe"@,
        !windows ==> r.0@ == root@ + "/venv/bin/python"@,
        windows ==> r.1@ == root@ + "\\joycaption_inference.py"@,
        !windows ==> r.1@ == root@ + "/joycaption_inference.py"@,
{
    if windows {
        (concat(root, "\\venv\\Scripts\\python.exe"), concat(root, "\\joycaption_inference.py"))
    } else {
        (concat(root, "/venv/bin/python"), concat(root, "/joycaption_inference.py"))
    }
}

/// The install status: installed exactly where both files exist.
pub fn install_status(paths: (String, String), python_exists: bool, script_exists: bool) -> (r: JoyCaptionInstallStatus)
    ensures
        r.installed == (python_exists && script_exists),
        r.installed ==> (r.python_path matches Some(p) && p@ == paths.0@) && (r.script_path matches Some(s) && s@ == paths.1@) && r.error is None,
        !r.installed ==> r.python_path is None && r.script_path is None && (r.error matches Some(e) && e@ == "Not installed"@),
{
    if python_exists && script_exists {
        JoyCaptionInstallStatus { installed: true, python_path: Some(paths.0), script_path: Some(paths.1), error: None }
    } else {
        JoyCaptionInstallStatus { installed: false, python_path: None, script_path: None, error: Some("Not installed".to_string()) }
    }
}

} // verus!
