//! Putting the SSH session where the user can keep it.
//!
//! Under Herdr that means handing it to a real pane — the one the popup was opened
//! from, or a fresh tab when that pane is busy — because a popup is modal and dies
//! with its process.

use crate::herdr;
use crate::herdr::{Context, ContextView, HerdrError, HerdrErrorView};
use crate::json_value::JsonTree;
use crate::model::Connection;
use crate::shell;
use crate::ssh;
use crate::ssh::SshError;
use crate::text;
use vstd::prelude::*;

verus! {

/// Where the session ended up.
#[derive(Clone, Copy, Debug, PartialEq, Eq, Structural)]
pub enum Placement {
    ReusedPane,
    NewTab,
}

/// The command line that starts the session, safe to type into a shell: a POSIX shell
/// reads it as the program and the arguments of ssh, one by one.
pub fn session_command(program: &str, conn: &Connection, home: &Option<String>) -> (r: Result<
    String,
    SshError,
>)
    ensures
        match (r, ssh::fault(conn@)) {
            (Ok(command), None) => {
                let args = ssh::ssh_args(conn@, text::opt_text(*home));
                &&& command@ == shell::quoted_command(program@, args)
                &&& shell::shell_words(command@) == Some(seq![program@] + args)
            },
            (Err(e), Some(f)) => e@ == f,
            _ => false,
        },
{
    match ssh::build_args(conn, home) {
        Ok(args) => {
            proof {
                shell::law_quoting_is_inert(program@, text::texts(args@));
            }
            Ok(shell::quote_command(program, &args))
        },
        Err(e) => Err(e),
    }
}

/// What Herdr has been asked, while its answer is awaited.
#[derive(Debug)]
pub enum Stage {
    /// Is the pane idle?
    Probing { pane: String },
    /// Run the command in the pane the user came from.
    Reusing,
    /// Name that pane's tab after the connection.
    Renaming,
    /// Make a tab.
    Creating,
    /// Run the command in the new tab.
    Starting,
}

/// The mathematical form of a [`Stage`].
pub enum StageView {
    Probing { pane: Seq<char> },
    Reusing,
    Renaming,
    Creating,
    Starting,
}

impl View for Stage {
    type V = StageView;

    open spec fn view(&self) -> StageView {
        match self {
            Stage::Probing { pane } => StageView::Probing { pane: pane@ },
            Stage::Reusing => StageView::Reusing,
            Stage::Renaming => StageView::Renaming,
            Stage::Creating => StageView::Creating,
            Stage::Starting => StageView::Starting,
        }
    }
}

/// How the hand-off goes on.
#[derive(Debug)]
pub enum Next {
    /// Ask Herdr this.
    Call { args: Vec<String>, stage: Stage },
    Done(Placement),
    Failed(HerdrError),
}

/// The mathematical form of a [`Next`].
pub enum NextView {
    Call { args: Seq<Seq<char>>, stage: StageView },
    Done(Placement),
    Failed(HerdrErrorView),
}

impl View for Next {
    type V = NextView;

    open spec fn view(&self) -> NextView {
        match self {
            Next::Call { args, stage } => NextView::Call {
                args: text::texts(args@),
                stage: stage@,
            },
            Next::Done(placement) => NextView::Done(*placement),
            Next::Failed(e) => NextView::Failed(e@),
        }
    }
}

/// Ask for a new tab.
pub open spec fn creating(ctx: ContextView, label: Seq<char>) -> NextView {
    NextView::Call {
        args: herdr::create_tab_call(ctx.workspace_id, label),
        stage: StageView::Creating,
    }
}

/// The first thing to ask.
pub open spec fn started(ctx: ContextView, label: Seq<char>) -> NextView {
    match ctx.focused_pane_id {
        Some(pane) => NextView::Call {
            args: herdr::process_info_call(pane),
            stage: StageView::Probing { pane },
        },
        None => creating(ctx, label),
    }
}

/// What to do with the answer to what was asked.
pub open spec fn advanced(
    ctx: ContextView,
    label: Seq<char>,
    command: Seq<char>,
    stage: StageView,
    reply: Result<JsonTree, HerdrErrorView>,
) -> NextView {
    match stage {
        StageView::Probing { pane } => if herdr::freedom(pane, reply) == Ok::<
            bool,
            HerdrErrorView,
        >(true) {
            NextView::Call { args: herdr::pane_run_call(pane, command), stage: StageView::Reusing }
        } else {
            creating(ctx, label)
        },
        StageView::Reusing => match (reply, ctx.tab_id) {
            (Err(e), _) => NextView::Failed(e),
            (Ok(_), Some(tab)) => NextView::Call {
                args: herdr::rename_tab_call(tab, label),
                stage: StageView::Renaming,
            },
            (Ok(_), None) => NextView::Done(Placement::ReusedPane),
        },
        StageView::Renaming => NextView::Done(Placement::ReusedPane),
        StageView::Creating => match herdr::root_pane(reply) {
            Err(e) => NextView::Failed(e),
            Ok(pane) => NextView::Call {
                args: herdr::pane_run_call(pane, command),
                stage: StageView::Starting,
            },
        },
        StageView::Starting => match reply {
            Err(e) => NextView::Failed(e),
            Ok(_) => NextView::Done(Placement::NewTab),
        },
    }
}

fn create(ctx: &Context, label: &str) -> (r: Next)
    ensures
        r@ == creating(ctx@, label@),
{
    Next::Call { args: herdr::create_tab_args(&ctx.workspace_id, label), stage: Stage::Creating }
}

/// Ask Herdr to run ssh in a pane, reusing the focused one when it is idle: the first
/// thing to ask.
pub fn hand_off(ctx: &Context, label: &str) -> (r: Next)
    ensures
        r@ == started(ctx@, label@),
{
    match &ctx.focused_pane_id {
        Some(pane) => Next::Call {
            args: herdr::process_info_args(pane.as_str()),
            stage: Stage::Probing { pane: pane.clone() },
        },
        None => create(ctx, label),
    }
}

/// What to do with Herdr's answer to what was asked. `label` names the tab and `command`
/// is the command line to run.
pub fn advance(
    ctx: &Context,
    label: &str,
    command: &str,
    stage: Stage,
    reply: Result<serde_json::Value, HerdrError>,
) -> (r: Next)
    ensures
        r@ == advanced(ctx@, label@, command@, stage@, herdr::reply_view(reply)),
{
    match stage {
        Stage::Probing { pane } => {
            // An unreadable or missing pane counts as busy: better a spare tab than a
            // command typed over something that matters.
            match herdr::pane_is_free(pane.as_str(), reply) {
                Ok(true) => Next::Call {
                    args: herdr::pane_run_args(pane.as_str(), command),
                    stage: Stage::Reusing,
                },
                _ => create(ctx, label),
            }
        },
        Stage::Reusing => {
            if let Err(e) = herdr::pane_run(reply) {
                return Next::Failed(e);
            }
            // Name the tab after the connection, the same way a freshly created one is
            // named.
            match &ctx.tab_id {
                Some(tab) => Next::Call {
                    args: herdr::rename_tab_args(tab.as_str(), label),
                    stage: Stage::Renaming,
                },
                None => Next::Done(Placement::ReusedPane),
            }
        },
        // A failure here is not fatal: a session that runs is worth more than its label,
        // and there is no way to restore the automatic title afterwards anyway.
        Stage::Renaming => Next::Done(Placement::ReusedPane),
        Stage::Creating => match herdr::create_tab(reply) {
            Ok(pane) => Next::Call {
                args: herdr::pane_run_args(pane.as_str(), command),
                stage: Stage::Starting,
            },
            Err(e) => Next::Failed(e),
        },
        Stage::Starting => match herdr::pane_run(reply) {
            Ok(()) => Next::Done(Placement::NewTab),
            Err(e) => Next::Failed(e),
        },
    }
}

/// What to say when no pane could be had and the session starts in the popup after all.
pub fn fallback_notice(cause: &str) -> (r: String)
    ensures
        r@ == "herdr-ssh-manager: could not open the session in a pane ("@ + cause@
            + ").\nherdr-ssh-manager: connecting here instead.\n"@,
{
    text::concat3(
        "herdr-ssh-manager: could not open the session in a pane (",
        cause,
        ").\nherdr-ssh-manager: connecting here instead.\n",
    )
}

// ---------------------------------------------------------------- laws

/// A command is typed only into a pane that was just reported idle, or into the root pane
/// of the tab that was just made.
pub proof fn law_busy_panes_are_left_alone(
    ctx: ContextView,
    label: Seq<char>,
    command: Seq<char>,
    stage: StageView,
    reply: Result<JsonTree, HerdrErrorView>,
    pane: Seq<char>,
)
    ensures
        !(started(ctx, label) matches NextView::Call { args, .. } && args
            == herdr::pane_run_call(pane, command)),
        advanced(ctx, label, command, stage, reply) matches NextView::Call { args, .. } && args
            == herdr::pane_run_call(pane, command) ==> {
            ||| stage == StageView::Probing { pane } && herdr::freedom(pane, reply) == Ok::<
                bool,
                HerdrErrorView,
            >(true)
            ||| stage is Creating && herdr::root_pane(reply) == Ok::<Seq<char>, HerdrErrorView>(
                pane,
            )
        },
{
    reveal_strlit("tab");
    reveal_strlit("pane");
    reveal_strlit("run");
    reveal_strlit("process-info");
    let run = herdr::pane_run_call(pane, command);
    assert(run[0] == "pane"@ && run[1] == "run"@ && run[2] == pane);
    assert(run[0].len() == 4 && run[1].len() == 3);
    assert forall|p: Seq<char>| #[trigger] herdr::process_info_call(p) != run by {
        assert(herdr::process_info_call(p)[1].len() == 12);
    }
    assert forall|t: Seq<char>, l: Seq<char>| #[trigger] herdr::rename_tab_call(t, l) != run by {
        assert(herdr::rename_tab_call(t, l)[0].len() == 3);
    }
    assert forall|w: Option<Seq<char>>, l: Seq<char>| #[trigger]
        herdr::create_tab_call(w, l) != run by {
        assert(herdr::create_tab_call(w, l)[0].len() == 3);
    }
    assert forall|p: Seq<char>| #[trigger] herdr::pane_run_call(p, command) == run implies p
        == pane by {
        assert(herdr::pane_run_call(p, command)[2] == p);
    }
}

/// The steps that are left at most, by what is awaited.
pub open spec fn steps_left(stage: StageView) -> nat {
    match stage {
        StageView::Probing { .. } => 3,
        StageView::Reusing => 2,
        StageView::Renaming => 1,
        StageView::Creating => 2,
        StageView::Starting => 1,
    }
}

/// The hand-off comes to an end, whatever Herdr answers.
pub proof fn law_hand_off_ends(
    ctx: ContextView,
    label: Seq<char>,
    command: Seq<char>,
    stage: StageView,
    reply: Result<JsonTree, HerdrErrorView>,
)
    ensures
        advanced(ctx, label, command, stage, reply) matches NextView::Call { stage: after, .. }
            ==> steps_left(after) < steps_left(stage),
{
}

/// The pane that was in focus is looked at first, where there is one, and else a tab is made
/// at once, for the connection and in the workspace.
pub proof fn law_where_it_starts(ctx: ContextView, label: Seq<char>)
    ensures
        ctx.focused_pane_id matches Some(pane) ==> started(ctx, label) == (NextView::Call {
            args: herdr::process_info_call(pane),
            stage: StageView::Probing { pane },
        }),
        ctx.focused_pane_id is None ==> started(ctx, label) == (NextView::Call {
            args: herdr::create_tab_call(ctx.workspace_id, label),
            stage: StageView::Creating,
        }),
{
}

/// A pane that is free gets the command; one that is busy, or of which nothing is known, is
/// left alone and a tab is made.
pub proof fn law_free_pane_is_reused(
    ctx: ContextView,
    label: Seq<char>,
    command: Seq<char>,
    pane: Seq<char>,
    reply: Result<JsonTree, HerdrErrorView>,
)
    ensures
        ({
            let next = advanced(ctx, label, command, StageView::Probing { pane }, reply);
            let free = herdr::freedom(pane, reply);
            &&& free == Ok::<bool, HerdrErrorView>(true) ==> next == (NextView::Call {
                args: herdr::pane_run_call(pane, command),
                stage: StageView::Reusing,
            })
            &&& free != Ok::<bool, HerdrErrorView>(true) ==> next == (NextView::Call {
                args: herdr::create_tab_call(ctx.workspace_id, label),
                stage: StageView::Creating,
            })
        }),
{
}

/// A tab that was reused is named after the connection, and whether that works makes no
/// difference. A new tab gets the command in its own pane. Where the command could not be
/// run, or no tab made, that is told.
pub proof fn law_how_it_goes_on(
    ctx: ContextView,
    label: Seq<char>,
    command: Seq<char>,
    reply: Result<JsonTree, HerdrErrorView>,
)
    ensures
        ({
            let reusing = advanced(ctx, label, command, StageView::Reusing, reply);
            let creating = advanced(ctx, label, command, StageView::Creating, reply);
            let starting = advanced(ctx, label, command, StageView::Starting, reply);
            &&& reply matches Err(e) ==> reusing == NextView::Failed(e) && starting
                == NextView::Failed(e)
            &&& reply is Ok && ctx.tab_id is Some ==> reusing == (NextView::Call {
                args: herdr::rename_tab_call(ctx.tab_id->0, label),
                stage: StageView::Renaming,
            })
            &&& reply is Ok && ctx.tab_id is None ==> reusing == NextView::Done(
                Placement::ReusedPane,
            )
            &&& advanced(ctx, label, command, StageView::Renaming, reply) == NextView::Done(
                Placement::ReusedPane,
            )
            &&& herdr::root_pane(reply) matches Ok(pane) ==> creating == (NextView::Call {
                args: herdr::pane_run_call(pane, command),
                stage: StageView::Starting,
            })
            &&& herdr::root_pane(reply) matches Err(e) ==> creating == NextView::Failed(e)
            &&& reply is Ok ==> starting == NextView::Done(Placement::NewTab)
        }),
{
}

} // verus!
