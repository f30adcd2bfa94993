//! A thin client over the `herdr` CLI, used to place the SSH session somewhere the
//! user can keep it.
//!
//! A popup is session-modal and dies with its process, which makes it the wrong home
//! for a long-lived SSH session. So instead of `exec`ing inside the popup, the picker
//! asks Herdr to run `ssh` in the pane the user came from — or, when that pane is
//! busy, in a new tab.

use crate::json_value;
use crate::json_value::JsonTree;
use crate::split;
use crate::text;
use vstd::prelude::*;

pub use crate::shell::{quote_command, shell_quote};

verus! {

broadcast use text::lemma_texts_push;

/// The slice of `HERDR_PLUGIN_CONTEXT_JSON` this plugin cares about.
#[derive(Debug)]
pub struct Context {
    pub workspace_id: Option<String>,
    /// The tab holding the focused pane.
    pub tab_id: Option<String>,
    /// The pane that was focused when the popup opened — where the user "is".
    pub focused_pane_id: Option<String>,
}

/// The mathematical form of a [`Context`].
pub struct ContextView {
    pub workspace_id: Option<Seq<char>>,
    pub tab_id: Option<Seq<char>>,
    pub focused_pane_id: Option<Seq<char>>,
}

impl View for Context {
    type V = ContextView;

    open spec fn view(&self) -> ContextView {
        ContextView {
            workspace_id: text::opt_text(self.workspace_id),
            tab_id: text::opt_text(self.tab_id),
            focused_pane_id: text::opt_text(self.focused_pane_id),
        }
    }
}

impl Clone for Context {
    fn clone(&self) -> (r: Self)
        ensures
            r@ == self@,
    {
        Context {
            workspace_id: text::copy_opt(&self.workspace_id),
            tab_id: text::copy_opt(&self.tab_id),
            focused_pane_id: text::copy_opt(&self.focused_pane_id),
        }
    }
}

// ---------------------------------------------------------------- errors

/// What can go wrong while asking Herdr for something.
#[derive(Debug, PartialEq, Eq)]
pub enum HerdrError {
    /// There is no `herdr` to ask.
    NoBinPath,
    /// It could not be started.
    NotRun { bin: String, args: Vec<String>, cause: String },
    /// It gave up without an answer.
    Failed { args: Vec<String>, detail: String },
    /// It answered something other than JSON.
    NotJson { args: Vec<String>, answer: String },
    /// It answered that it could not.
    Refused { args: Vec<String>, message: String },
    NoProcessInfo { pane: String },
    NoForegroundGroup { pane: String },
    NoShellPid { pane: String },
    NoRootPane,
}

/// The mathematical form of a [`HerdrError`].
pub enum HerdrErrorView {
    NoBinPath,
    NotRun { bin: Seq<char>, args: Seq<Seq<char>>, cause: Seq<char> },
    Failed { args: Seq<Seq<char>>, detail: Seq<char> },
    NotJson { args: Seq<Seq<char>>, answer: Seq<char> },
    Refused { args: Seq<Seq<char>>, message: Seq<char> },
    NoProcessInfo { pane: Seq<char> },
    NoForegroundGroup { pane: Seq<char> },
    NoShellPid { pane: Seq<char> },
    NoRootPane,
}

impl View for HerdrError {
    type V = HerdrErrorView;

    open spec fn view(&self) -> HerdrErrorView {
        match self {
            HerdrError::NoBinPath => HerdrErrorView::NoBinPath,
            HerdrError::NotRun { bin, args, cause } => HerdrErrorView::NotRun {
                bin: bin@,
                args: text::texts(args@),
                cause: cause@,
            },
            HerdrError::Failed { args, detail } => HerdrErrorView::Failed {
                args: text::texts(args@),
                detail: detail@,
            },
            HerdrError::NotJson { args, answer } => HerdrErrorView::NotJson {
                args: text::texts(args@),
                answer: answer@,
            },
            HerdrError::Refused { args, message } => HerdrErrorView::Refused {
                args: text::texts(args@),
                message: message@,
            },
            HerdrError::NoProcessInfo { pane } => HerdrErrorView::NoProcessInfo { pane: pane@ },
            HerdrError::NoForegroundGroup { pane } => HerdrErrorView::NoForegroundGroup {
                pane: pane@,
            },
            HerdrError::NoShellPid { pane } => HerdrErrorView::NoShellPid { pane: pane@ },
            HerdrError::NoRootPane => HerdrErrorView::NoRootPane,
        }
    }
}

/// The subcommand that was run, as the messages name it.
pub open spec fn subcommand(args: Seq<Seq<char>>) -> Seq<char> {
    "`herdr "@ + split::join(args, " "@) + "`"@
}

impl HerdrErrorView {
    pub open spec fn text(self) -> Seq<char> {
        match self {
            HerdrErrorView::NoBinPath => "HERDR_BIN_PATH is not set"@,
            HerdrErrorView::NotRun { bin, args, cause } => "could not run "@ + bin + " "@
                + split::join(args, " "@) + ": "@ + cause,
            HerdrErrorView::Failed { args, detail } => if detail.len() == 0 {
                subcommand(args) + " failed"@
            } else {
                subcommand(args) + " failed: "@ + detail
            },
            HerdrErrorView::NotJson { args, answer } => subcommand(args)
                + " did not return JSON: "@ + answer,
            HerdrErrorView::Refused { args, message } => subcommand(args) + " failed: "@ + message,
            HerdrErrorView::NoProcessInfo { pane } => "pane "@ + pane
                + " reported no process info"@,
            HerdrErrorView::NoForegroundGroup { pane } => "pane "@ + pane
                + " reported no foreground process group"@,
            HerdrErrorView::NoShellPid { pane } => "pane "@ + pane + " reported no shell pid"@,
            HerdrErrorView::NoRootPane => "herdr created a tab but reported no root pane"@,
        }
    }
}

fn name_subcommand(args: &Vec<String>) -> (r: String)
    ensures
        r@ == subcommand(text::texts(args@)),
{
    text::concat3("`herdr ", split::join_texts(args, " ").as_str(), "`")
}

impl HerdrError {
    /// What to tell the user.
    pub fn message(&self) -> (r: String)
        ensures
            r@ == self@.text(),
    {
        match self {
            HerdrError::NoBinPath => "HERDR_BIN_PATH is not set".to_string(),
            HerdrError::NotRun { bin, args, cause } => {
                let mut s = text::concat3("could not run ", bin.as_str(), " ");
                s.append(split::join_texts(args, " ").as_str());
                s.append(": ");
                s.append(cause.as_str());
                s
            },
            HerdrError::Failed { args, detail } => {
                if detail.as_str().is_empty() {
                    text::concat2(name_subcommand(args).as_str(), " failed")
                } else {
                    text::concat3(name_subcommand(args).as_str(), " failed: ", detail.as_str())
                }
            },
            HerdrError::NotJson { args, answer } => {
                text::concat3(
                    name_subcommand(args).as_str(),
                    " did not return JSON: ",
                    answer.as_str(),
                )
            },
            HerdrError::Refused { args, message } => {
                text::concat3(name_subcommand(args).as_str(), " failed: ", message.as_str())
            },
            HerdrError::NoProcessInfo { pane } => {
                text::concat3("pane ", pane.as_str(), " reported no process info")
            },
            HerdrError::NoForegroundGroup { pane } => {
                text::concat3("pane ", pane.as_str(), " reported no foreground process group")
            },
            HerdrError::NoShellPid { pane } => {
                text::concat3("pane ", pane.as_str(), " reported no shell pid")
            },
            HerdrError::NoRootPane => {
                "herdr created a tab but reported no root pane".to_string()
            },
        }
    }
}

// ---------------------------------------------------------------- calling herdr

/// Which `herdr` to run, from the value of `HERDR_BIN_PATH`.
pub fn bin_path(value: &Option<String>) -> (r: Result<String, HerdrError>)
    ensures
        match (r, *value) {
            (Ok(bin), Some(v)) => v@.len() > 0 && bin@ == v@,
            (Err(e), Some(v)) => v@.len() == 0 && e@ == HerdrErrorView::NoBinPath,
            (Err(e), None) => e@ == HerdrErrorView::NoBinPath,
            (Ok(_), None) => false,
        },
{
    match value {
        Some(v) => if v.as_str().is_empty() {
            Err(HerdrError::NoBinPath)
        } else {
            Ok(v.clone())
        },
        None => Err(HerdrError::NoBinPath),
    }
}

/// What a subcommand left behind when it ended.
#[derive(Debug)]
pub struct Output {
    /// Did it exit with status zero?
    pub success: bool,
    pub stdout: Vec<u8>,
    pub stderr: Vec<u8>,
}

/// What a text output is taken for, with a replacement character for bytes that are no
/// UTF-8.
pub uninterp spec fn lossy_text(bytes: Seq<u8>) -> Seq<char>;

/// `String::from_utf8_lossy`: the text that the bytes encode. What stands for bytes that
/// are no UTF-8 depends on the bytes alone and is named, not spelled out.
#[verifier::external_body]
fn from_utf8_lossy(bytes: &Vec<u8>) -> (r: String)
    ensures
        r@ == lossy_text(bytes@),
        vstd::utf8::valid_utf8(bytes@) ==> r@ == vstd::utf8::decode_utf8(bytes@),
{
    String::from_utf8_lossy(bytes).into_owned()
}

/// What Herdr's answer comes to.
pub open spec fn reply_view(r: Result<serde_json::Value, HerdrError>) -> Result<
    JsonTree,
    HerdrErrorView,
> {
    match r {
        Ok(v) => Ok(json_value::json_tree(v)),
        Err(e) => Err(e@),
    }
}

/// What is inside the JSON envelope that Herdr answers with.
pub open spec fn opened(args: Seq<Seq<char>>, envelope: JsonTree) -> Result<
    JsonTree,
    HerdrErrorView,
> {
    match envelope.entry("error"@) {
        Some(error) => Err(
            HerdrErrorView::Refused {
                args,
                message: match error.text_entry("message"@) {
                    Some(message) => message,
                    None => "unknown error"@,
                },
            },
        ),
        None => match envelope.entry("result"@) {
            Some(result) => Ok(result),
            None => Ok(JsonTree::Null),
        },
    }
}

/// What a subcommand's output comes to.
pub open spec fn answered(
    args: Seq<Seq<char>>,
    success: bool,
    stdout: Seq<char>,
    stderr: Seq<char>,
) -> Result<JsonTree, HerdrErrorView> {
    let answer = text::trimmed(stdout);
    if answer.len() == 0 {
        if success {
            Ok(JsonTree::Null)
        } else {
            Err(HerdrErrorView::Failed { args, detail: text::trimmed(stderr) })
        }
    } else {
        match json_value::json_document(answer) {
            Some(envelope) => opened(args, envelope),
            None => Err(HerdrErrorView::NotJson { args, answer }),
        }
    }
}

/// What is inside the JSON envelope that Herdr answers with.
pub fn open_envelope(args: &Vec<String>, envelope: &serde_json::Value) -> (r: Result<
    serde_json::Value,
    HerdrError,
>)
    ensures
        reply_view(r) == opened(text::texts(args@), json_value::json_tree(*envelope)),
{
    if let Some(error) = json_value::json_get(envelope, "error") {
        let message = match json_value::json_get(error, "message") {
            Some(m) => match json_value::json_as_str(m) {
                Some(s) => s.to_string(),
                None => "unknown error".to_string(),
            },
            None => "unknown error".to_string(),
        };
        return Err(HerdrError::Refused { args: text::copy_list(args), message });
    }
    match json_value::json_get(envelope, "result") {
        Some(result) => Ok(json_value::json_clone(result)),
        None => Ok(json_value::json_null()),
    }
}

/// What a subcommand's output comes to.
pub fn answer(args: &Vec<String>, success: bool, stdout: &str, stderr: &str) -> (r: Result<
    serde_json::Value,
    HerdrError,
>)
    ensures
        reply_view(r) == answered(text::texts(args@), success, stdout@, stderr@),
{
    let answer = text::trim(stdout);
    if answer.as_str().is_empty() {
        if success {
            // Nothing to report is how the action commands say "done".
            return Ok(json_value::json_null());
        }
        return Err(
            HerdrError::Failed { args: text::copy_list(args), detail: text::trim(stderr) },
        );
    }
    match json_value::parse_json(answer.as_str()) {
        Some(envelope) => open_envelope(args, &envelope),
        None => Err(HerdrError::NotJson { args: text::copy_list(args), answer }),
    }
}

/// The `result` object that a `herdr` subcommand answered with.
///
/// Herdr's CLI is not uniform here: query commands answer with a JSON envelope, while
/// commands that just do something (`pane run`) print nothing at all and report success
/// through the exit status. Failures print a JSON `error` and exit non-zero.
pub fn call(args: &Vec<String>, output: &Output) -> (r: Result<serde_json::Value, HerdrError>)
    ensures
        reply_view(r) == answered(
            text::texts(args@),
            output.success,
            lossy_text(output.stdout@),
            lossy_text(output.stderr@),
        ),
{
    let stdout = from_utf8_lossy(&output.stdout);
    let stderr = from_utf8_lossy(&output.stderr);
    answer(args, output.success, stdout.as_str(), stderr.as_str())
}

// ---------------------------------------------------------------- the subcommands

pub open spec fn process_info_call(pane: Seq<char>) -> Seq<Seq<char>> {
    seq!["pane"@, "process-info"@, "--pane"@, pane]
}

pub open spec fn create_tab_call(workspace: Option<Seq<char>>, label: Seq<char>) -> Seq<Seq<char>> {
    let args = seq!["tab"@, "create"@, "--focus"@, "--label"@, label];
    match workspace {
        Some(ws) => args.push("--workspace"@).push(ws),
        None => args,
    }
}

pub open spec fn rename_tab_call(tab: Seq<char>, label: Seq<char>) -> Seq<Seq<char>> {
    seq!["tab"@, "rename"@, tab, label]
}

pub open spec fn pane_run_call(pane: Seq<char>, command_line: Seq<char>) -> Seq<Seq<char>> {
    seq!["pane"@, "run"@, pane, command_line]
}

/// Four arguments of a subcommand.
fn four(a: &str, b: &str, c: &str, d: &str) -> (r: Vec<String>)
    ensures
        text::texts(r@) == seq![a@, b@, c@, d@],
{
    let mut args: Vec<String> = Vec::new();
    args.push(a.to_string());
    args.push(b.to_string());
    args.push(c.to_string());
    args.push(d.to_string());
    assert(text::texts(args@) =~= seq![a@, b@, c@, d@]);
    args
}

/// The call that asks what runs in a pane.
pub fn process_info_args(pane_id: &str) -> (r: Vec<String>)
    ensures
        text::texts(r@) == process_info_call(pane_id@),
{
    four("pane", "process-info", "--pane", pane_id)
}

/// The call that creates a focused tab.
pub fn create_tab_args(workspace_id: &Option<String>, label: &str) -> (r: Vec<String>)
    ensures
        text::texts(r@) == create_tab_call(text::opt_text(*workspace_id), label@),
{
    let mut args = four("tab", "create", "--focus", "--label");
    args.push(label.to_string());
    assert(text::texts(args@) =~= seq!["tab"@, "create"@, "--focus"@, "--label"@, label@]);
    if let Some(ws) = workspace_id {
        args.push("--workspace".to_string());
        args.push(ws.clone());
    }
    args
}

/// The call that gives a tab a new label.
///
/// Note there is no way to clear it back to the automatic title: unlike `pane rename`,
/// `tab rename` takes a label and nothing else.
pub fn rename_tab_args(tab_id: &str, label: &str) -> (r: Vec<String>)
    ensures
        text::texts(r@) == rename_tab_call(tab_id@, label@),
{
    four("tab", "rename", tab_id, label)
}

/// The call that types a command line into a pane's shell and runs it.
///
/// Note that Herdr joins the argv it is given with plain spaces and feeds the result
/// to the shell — it does no quoting of its own. The command must therefore arrive
/// already quoted, as a single argument.
pub fn pane_run_args(pane_id: &str, command_line: &str) -> (r: Vec<String>)
    ensures
        text::texts(r@) == pane_run_call(pane_id@, command_line@),
{
    four("pane", "run", pane_id, command_line)
}

/// What the answer to a process-info call says of the pane.
pub open spec fn freedom(pane: Seq<char>, reply: Result<JsonTree, HerdrErrorView>) -> Result<
    bool,
    HerdrErrorView,
> {
    match reply {
        Err(e) => Err(e),
        Ok(result) => match result.entry("process_info"@) {
            None => Err(HerdrErrorView::NoProcessInfo { pane }),
            Some(info) => match info.integer_entry("foreground_process_group_id"@) {
                None => Err(HerdrErrorView::NoForegroundGroup { pane }),
                Some(foreground) => match info.integer_entry("shell_pid"@) {
                    None => Err(HerdrErrorView::NoShellPid { pane }),
                    Some(shell) => Ok(foreground == shell),
                },
            },
        },
    }
}

/// The root pane that the answer to a create-tab call names.
pub open spec fn root_pane(reply: Result<JsonTree, HerdrErrorView>) -> Result<
    Seq<char>,
    HerdrErrorView,
> {
    match reply {
        Err(e) => Err(e),
        Ok(result) => match result.entry("root_pane"@) {
            None => Err(HerdrErrorView::NoRootPane),
            Some(pane) => match pane.text_entry("pane_id"@) {
                None => Err(HerdrErrorView::NoRootPane),
                Some(id) => Ok(id),
            },
        },
    }
}

/// The integer under a key of an object.
fn integer_of(v: &serde_json::Value, key: &str) -> (r: Option<i64>)
    ensures
        match (r, json_value::json_tree(*v).integer_entry(key@)) {
            (Some(i), Some(n)) => i == n,
            (None, None) => true,
            _ => false,
        },
{
    match json_value::json_get(v, key) {
        Some(found) => json_value::json_as_i64(found),
        None => None,
    }
}

/// Is the pane sitting at an idle shell prompt? `reply` is the answer to
/// [`process_info_args`].
///
/// A shell waiting for input owns the foreground process group itself; anything else
/// running in there (an agent, an editor, a build) takes it over. That comparison is
/// what tells "free to reuse" from "busy, leave it alone".
pub fn pane_is_free(pane_id: &str, reply: Result<serde_json::Value, HerdrError>) -> (r: Result<
    bool,
    HerdrError,
>)
    ensures
        match (r, freedom(pane_id@, reply_view(reply))) {
            (Ok(free), Ok(expected)) => free == expected,
            (Err(e), Err(expected)) => e@ == expected,
            _ => false,
        },
{
    let result = match reply {
        Ok(v) => v,
        Err(e) => {
            return Err(e);
        },
    };
    let info = match json_value::json_get(&result, "process_info") {
        Some(info) => info,
        None => {
            return Err(HerdrError::NoProcessInfo { pane: pane_id.to_string() });
        },
    };
    let foreground: i64 = match integer_of(info, "foreground_process_group_id") {
        Some(n) => n,
        None => {
            return Err(HerdrError::NoForegroundGroup { pane: pane_id.to_string() });
        },
    };
    let shell: i64 = match integer_of(info, "shell_pid") {
        Some(n) => n,
        None => {
            return Err(HerdrError::NoShellPid { pane: pane_id.to_string() });
        },
    };
    Ok(foreground == shell)
}

/// The root pane id of the tab that was created. `reply` is the answer to
/// [`create_tab_args`].
pub fn create_tab(reply: Result<serde_json::Value, HerdrError>) -> (r: Result<String, HerdrError>)
    ensures
        match (r, root_pane(reply_view(reply))) {
            (Ok(pane), Ok(expected)) => pane@ == expected,
            (Err(e), Err(expected)) => e@ == expected,
            _ => false,
        },
{
    let result = match reply {
        Ok(v) => v,
        Err(e) => {
            return Err(e);
        },
    };
    if let Some(pane) = json_value::json_get(&result, "root_pane") {
        if let Some(id) = json_value::json_get(pane, "pane_id") {
            if let Some(s) = json_value::json_as_str(id) {
                return Ok(s.to_string());
            }
        }
    }
    Err(HerdrError::NoRootPane)
}

/// Was a command carried out? Only that it was matters, not what it answered.
fn carried_out(reply: Result<serde_json::Value, HerdrError>) -> (r: Result<(), HerdrError>)
    ensures
        match (r, reply_view(reply)) {
            (Ok(()), Ok(_)) => true,
            (Err(e), Err(expected)) => e@ == expected,
            _ => false,
        },
{
    match reply {
        Ok(_) => Ok(()),
        Err(e) => Err(e),
    }
}

/// Was the tab given its new label? `reply` is the answer to [`rename_tab_args`].
pub fn rename_tab(reply: Result<serde_json::Value, HerdrError>) -> (r: Result<(), HerdrError>)
    ensures
        match (r, reply_view(reply)) {
            (Ok(()), Ok(_)) => true,
            (Err(e), Err(expected)) => e@ == expected,
            _ => false,
        },
{
    carried_out(reply)
}

/// Was the command line typed and run? `reply` is the answer to [`pane_run_args`].
pub fn pane_run(reply: Result<serde_json::Value, HerdrError>) -> (r: Result<(), HerdrError>)
    ensures
        match (r, reply_view(reply)) {
            (Ok(()), Ok(_)) => true,
            (Err(e), Err(expected)) => e@ == expected,
            _ => false,
        },
{
    carried_out(reply)
}

// ---------------------------------------------------------------- laws

/// What Herdr answers is taken for what it is: an error is told with its message, whatever
/// else the answer holds, and otherwise the result is handed on, or nothing where there is
/// none.
pub proof fn law_answers(
    args: Seq<Seq<char>>,
    fields: Map<Seq<char>, JsonTree>,
    error: Map<Seq<char>, JsonTree>,
    message: Seq<char>,
)
    ensures
        ({
            let r = opened(args, JsonTree::Object(fields));
            let failed = fields.contains_key("error"@) && fields["error"@] == JsonTree::Object(
                error,
            );
            &&& r is Err <==> fields.contains_key("error"@)
            &&& failed && error.contains_key("message"@) && error["message"@] == JsonTree::Text(
                message,
            ) ==> r == Err::<JsonTree, HerdrErrorView>(HerdrErrorView::Refused { args, message })
            &&& failed && !error.contains_key("message"@) ==> r == Err::<JsonTree, HerdrErrorView>(
                HerdrErrorView::Refused { args, message: "unknown error"@ },
            )
            &&& !fields.contains_key("error"@) && fields.contains_key("result"@) ==> r == Ok::<
                JsonTree,
                HerdrErrorView,
            >(fields["result"@])
            &&& !fields.contains_key("error"@) && !fields.contains_key("result"@) ==> r == Ok::<
                JsonTree,
                HerdrErrorView,
            >(JsonTree::Null)
        }),
{
}

/// A call that prints nothing is a success or a failure as its status says, and a failure is
/// told with what went to the error output. Anything that is printed has to be JSON, and is
/// taken for the answer whatever the status is.
pub proof fn law_output(
    args: Seq<Seq<char>>,
    success: bool,
    stdout: Seq<char>,
    stderr: Seq<char>,
)
    ensures
        text::all_white(stdout) && success ==> answered(args, success, stdout, stderr) == Ok::<
            JsonTree,
            HerdrErrorView,
        >(JsonTree::Null),
        text::all_white(stdout) && !success ==> answered(args, success, stdout, stderr) == Err::<
            JsonTree,
            HerdrErrorView,
        >(HerdrErrorView::Failed { args, detail: text::trimmed(stderr) }),
        !text::all_white(stdout) ==> match json_value::json_document(text::trimmed(stdout)) {
            Some(envelope) => answered(args, success, stdout, stderr) == opened(args, envelope),
            None => answered(args, success, stdout, stderr) == Err::<JsonTree, HerdrErrorView>(
                HerdrErrorView::NotJson { args, answer: text::trimmed(stdout) },
            ),
        },
{
    text::law_blank(stdout);
}

/// A pane is free where its shell itself is in the foreground, and not where something else
/// is. Where Herdr does not say which is, that is an error and not an answer.
pub proof fn law_free_panes(
    pane: Seq<char>,
    result: Map<Seq<char>, JsonTree>,
    info: Map<Seq<char>, JsonTree>,
    foreground: int,
    shell: int,
)
    requires
        i64::MIN <= foreground <= i64::MAX,
        i64::MIN <= shell <= i64::MAX,
    ensures
        ({
            let r = freedom(pane, Ok(JsonTree::Object(result)));
            let told = result.contains_key("process_info"@) && result["process_info"@]
                == JsonTree::Object(info);
            let has_foreground = info.contains_key("foreground_process_group_id"@)
                && info["foreground_process_group_id"@] == JsonTree::Integer(foreground);
            let has_shell = info.contains_key("shell_pid"@) && info["shell_pid"@]
                == JsonTree::Integer(shell);
            &&& told && has_foreground && has_shell ==> r == Ok::<bool, HerdrErrorView>(
                foreground == shell,
            )
            &&& !result.contains_key("process_info"@) ==> r is Err
            &&& told && !info.contains_key("foreground_process_group_id"@) ==> r is Err
            &&& told && !info.contains_key("shell_pid"@) ==> r is Err
        }),
{
}

/// A call that failed says nothing about a pane, and made no tab.
pub proof fn law_failed_calls(pane: Seq<char>, e: HerdrErrorView)
    ensures
        freedom(pane, Err(e)) == Err::<bool, HerdrErrorView>(e),
        root_pane(Err(e)) == Err::<Seq<char>, HerdrErrorView>(e),
{
}

/// The pane of a new tab is the one that Herdr names.
pub proof fn law_root_pane(
    result: Map<Seq<char>, JsonTree>,
    root: Map<Seq<char>, JsonTree>,
    id: Seq<char>,
)
    ensures
        ({
            let r = root_pane(Ok(JsonTree::Object(result)));
            let told = result.contains_key("root_pane"@) && result["root_pane"@]
                == JsonTree::Object(root);
            &&& told && root.contains_key("pane_id"@) && root["pane_id"@] == JsonTree::Text(id)
                ==> r == Ok::<Seq<char>, HerdrErrorView>(id)
            &&& !result.contains_key("root_pane"@) ==> r is Err
            &&& told && !root.contains_key("pane_id"@) ==> r is Err
        }),
{
}

/// Each request names what it is about: the pane that is looked at or run in, the command
/// that is typed there, the tab that is renamed, and the label and workspace of a new one.
pub proof fn law_requests(
    pane: Seq<char>,
    command: Seq<char>,
    tab: Seq<char>,
    label: Seq<char>,
    workspace: Seq<char>,
)
    ensures
        process_info_call(pane).take(2) == seq!["pane"@, "process-info"@],
        process_info_call(pane).last() == pane,
        pane_run_call(pane, command) == seq!["pane"@, "run"@].push(pane).push(command),
        rename_tab_call(tab, label) == seq!["tab"@, "rename"@].push(tab).push(label),
        create_tab_call(None, label).take(2) == seq!["tab"@, "create"@],
        create_tab_call(None, label).contains("--focus"@),
        create_tab_call(None, label).last() == label,
        create_tab_call(None, label)[create_tab_call(None, label).len() - 2] == "--label"@,
        create_tab_call(Some(workspace), label) == create_tab_call(None, label)
            + seq!["--workspace"@].push(workspace),
{
    assert(process_info_call(pane).take(2) =~= seq!["pane"@, "process-info"@]);
    assert(pane_run_call(pane, command) =~= seq!["pane"@, "run"@].push(pane).push(command));
    assert(rename_tab_call(tab, label) =~= seq!["tab"@, "rename"@].push(tab).push(label));
    let plain = create_tab_call(None, label);
    assert(plain.take(2) =~= seq!["tab"@, "create"@]);
    assert(plain[2] == "--focus"@);
    assert(create_tab_call(Some(workspace), label) =~= plain + seq!["--workspace"@].push(
        workspace,
    ));
}

/// A call that went wrong is told with what was asked and with what came back, and a pane
/// that says too little about itself by its id.
pub proof fn law_errors_are_told(e: HerdrErrorView)
    ensures
        match e {
            HerdrErrorView::NotRun { bin, args, cause } => text::occurs_in(e.text(), bin)
                && text::occurs_in(e.text(), split::join(args, seq![' '])) && text::occurs_in(
                e.text(),
                cause,
            ),
            HerdrErrorView::Failed { args, detail } => text::occurs_in(
                e.text(),
                split::join(args, seq![' ']),
            ) && text::occurs_in(e.text(), detail),
            HerdrErrorView::NotJson { args, answer } => text::occurs_in(
                e.text(),
                split::join(args, seq![' ']),
            ) && text::occurs_in(e.text(), answer),
            HerdrErrorView::Refused { args, message } => text::occurs_in(
                e.text(),
                split::join(args, seq![' ']),
            ) && text::occurs_in(e.text(), message),
            HerdrErrorView::NoProcessInfo { pane } => text::occurs_in(e.text(), pane),
            HerdrErrorView::NoForegroundGroup { pane } => text::occurs_in(e.text(), pane),
            HerdrErrorView::NoShellPid { pane } => text::occurs_in(e.text(), pane),
            _ => true,
        },
{
    reveal_strlit(" ");
    assert(" "@ =~= seq![' ']);
    let s = e.text();
    let i = "`herdr "@.len() as int;
    let p = "pane "@.len() as int;
    match e {
        HerdrErrorView::NotRun { bin, args, cause } => {
            let j = "could not run "@.len() as int;
            text::lemma_found(s, bin, j);
            text::lemma_found(s, split::join(args, " "@), j + bin.len() + " "@.len());
            text::lemma_found(s, cause, s.len() - cause.len());
        },
        HerdrErrorView::Failed { args, detail } => {
            text::lemma_found(s, split::join(args, " "@), i);
            text::lemma_found(s, detail, s.len() - detail.len());
        },
        HerdrErrorView::NotJson { args, answer } => {
            text::lemma_found(s, split::join(args, " "@), i);
            text::lemma_found(s, answer, s.len() - answer.len());
        },
        HerdrErrorView::Refused { args, message } => {
            text::lemma_found(s, split::join(args, " "@), i);
            text::lemma_found(s, message, s.len() - message.len());
        },
        HerdrErrorView::NoProcessInfo { pane } => {
            text::lemma_found(s, pane, p);
        },
        HerdrErrorView::NoForegroundGroup { pane } => {
            text::lemma_found(s, pane, p);
        },
        HerdrErrorView::NoShellPid { pane } => {
            text::lemma_found(s, pane, p);
        },
        _ => {},
    }
}

} // verus!
