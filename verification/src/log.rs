//! Progress reporting: an explicit logging context with nested
//! indentation, an output selector, and a buffered sink of emitted lines.
//!
//! The original design kept this state in a process-wide global; here it
//! is an explicit context threaded through calls, which removes the
//! shared mutability and lets the indentation discipline be verified.
//! Colouring of the action words is presentation, applied by the output
//! layer, and is not part of these contracts.

use vstd::prelude::*;
use vstd::string::*;

verus! {

/// Where emitted lines are sent.
#[derive(Debug, Clone, Copy, PartialEq, Eq, Structural)]
pub enum Output {
    Stdout,
    Stderr,
    Silent,
    TracingDebug,
}

/// The text one indentation level contributes: its custom prefix, or two
/// spaces.
pub open spec fn indent_text(ind: Option<String>) -> Seq<char> {
    match ind {
        Some(s) => s@,
        None => "  "@,
    }
}

/// The indentation prefix of a stack of levels.
pub open spec fn concat_indents(inds: Seq<Option<String>>) -> Seq<char>
    decreases inds.len(),
{
    if inds.len() == 0 {
        Seq::empty()
    } else {
        concat_indents(inds.drop_last()) + indent_text(inds.last())
    }
}

/// A full log line: the indentation prefix, the action word, a space,
/// and the subject.
pub open spec fn action_message(indent: Seq<char>, action: Seq<char>, subject: Seq<char>) -> Seq<
    char,
> {
    indent + action + " "@ + subject
}

/// The logging context: the indentation stack, its precomputed prefix,
/// the selected output, and the sink of emitted lines.
pub struct LogState {
    pub indents: Vec<Option<String>>,
    pub calculated_indent: String,
    pub output: Output,
    pub lines: Vec<(Output, String)>,
}

impl LogState {
    /// The precomputed prefix always matches the indentation stack.
    pub open spec fn inv(self) -> bool {
        self.calculated_indent@ == concat_indents(self.indents@)
    }

    /// A fresh context: no indentation, standard output, nothing emitted.
    pub fn new() -> (r: LogState)
        ensures
            r.inv(),
            r.indents@.len() == 0,
            r.calculated_indent@ == Seq::<char>::empty(),
            r.output == Output::Stdout,
            r.lines@.len() == 0,
    {
        LogState {
            indents: Vec::new(),
            calculated_indent: String::new(),
            output: Output::Stdout,
            lines: Vec::new(),
        }
    }

    /// Pushes one indentation level, with a custom prefix or the default
    /// two spaces, and regenerates the precomputed prefix.
    pub fn inc_indent(&mut self, custom_prefix: Option<&str>)
        requires
            old(self).inv(),
        ensures
            final(self).inv(),
            final(self).indents@.len() == old(self).indents@.len() + 1,
            indent_text(final(self).indents@.last()) == (match custom_prefix {
                Some(p) => p@,
                None => "  "@,
            }),
            final(self).indents@.drop_last() == old(self).indents@,
            final(self).calculated_indent@ == old(self).calculated_indent@ + indent_text(
                final(self).indents@.last(),
            ),
            final(self).output == old(self).output,
            final(self).lines == old(self).lines,
    {
        let level: Option<String> = match custom_prefix {
            Some(p) => Some(String::from_str(p)),
            None => None,
        };
        self.indents.push(level);
        proof {
            assert(self.indents@.drop_last() =~= old(self).indents@);
        }
        self.regen_indent_prefix();
    }

    /// Pops one indentation level, if any, and regenerates the prefix.
    pub fn dec_indent(&mut self)
        requires
            old(self).inv(),
        ensures
            final(self).inv(),
            old(self).indents@.len() > 0 ==> final(self).indents@ == old(self).indents@.drop_last(),
            old(self).indents@.len() == 0 ==> final(self).indents@ == old(self).indents@,
            final(self).calculated_indent@ == concat_indents(final(self).indents@),
            final(self).output == old(self).output,
            final(self).lines == old(self).lines,
    {
        let _ = self.indents.pop();
        self.regen_indent_prefix();
    }

    /// Rebuilds the precomputed prefix from the indentation stack.
    fn regen_indent_prefix(&mut self)
        ensures
            final(self).inv(),
            final(self).indents == old(self).indents,
            final(self).output == old(self).output,
            final(self).lines == old(self).lines,
    {
        let mut s = String::new();
        let mut i: usize = 0;
        proof {
            assert(self.indents@.take(0) =~= Seq::<Option<String>>::empty());
            assert(s@ =~= concat_indents(self.indents@.take(0)));
        }
        while i < self.indents.len()
            invariant
                i <= self.indents@.len(),
                s@ == concat_indents(self.indents@.take(i as int)),
            decreases self.indents@.len() - i,
        {
            match &self.indents[i] {
                Some(p) => s.append(p.as_str()),
                None => s.append("  "),
            }
            proof {
                assert(self.indents@.take(i + 1).drop_last() =~= self.indents@.take(i as int));
                assert(self.indents@.take(i + 1).last() == self.indents@[i as int]);
            }
            i = i + 1;
        }
        proof {
            assert(self.indents@.take(self.indents@.len() as int) =~= self.indents@);
        }
        self.calculated_indent = s;
    }

    /// Selects where subsequent lines are sent.
    fn set_output(&mut self, output: Output)
        requires
            old(self).inv(),
        ensures
            final(self).inv(),
            final(self).output == output,
            final(self).indents == old(self).indents,
            final(self).calculated_indent == old(self).calculated_indent,
            final(self).lines == old(self).lines,
    {
        self.output = output;
    }
}

impl Default for LogState {
    /// Same as [`LogState::new`].
    fn default() -> (r: LogState)
        ensures
            r.inv(),
            r.indents@.len() == 0,
            r.output == Output::Stdout,
            r.lines@.len() == 0,
    {
        LogState::new()
    }
}

/// A handle for one indentation level. Creating it pushes a level;
/// releasing it restores the previous indentation.
pub struct LogIndent {}

impl LogIndent {
    /// Pushes a default indentation level.
    pub fn new(state: &mut LogState) -> (r: LogIndent)
        requires
            old(state).inv(),
        ensures
            final(state).inv(),
            final(state).indents@.len() == old(state).indents@.len() + 1,
            final(state).indents@.drop_last() == old(state).indents@,
            final(state).calculated_indent@ == old(state).calculated_indent@ + "  "@,
            final(state).output == old(state).output,
            final(state).lines == old(state).lines,
    {
        state.inc_indent(None);
        LogIndent {}
    }

    /// Pushes an indentation level with a custom prefix.
    pub fn prefix(state: &mut LogState, prefix: &str) -> (r: LogIndent)
        requires
            old(state).inv(),
        ensures
            final(state).inv(),
            final(state).indents@.len() == old(state).indents@.len() + 1,
            final(state).indents@.drop_last() == old(state).indents@,
            final(state).calculated_indent@ == old(state).calculated_indent@ + prefix@,
            final(state).output == old(state).output,
            final(state).lines == old(state).lines,
    {
        state.inc_indent(Some(prefix));
        LogIndent {}
    }

    /// Restores the previous indentation.
    pub fn release(self, state: &mut LogState)
        requires
            old(state).inv(),
        ensures
            final(state).inv(),
            old(state).indents@.len() > 0 ==> final(state).indents@ == old(
                state,
            ).indents@.drop_last(),
            final(state).output == old(state).output,
            final(state).lines == old(state).lines,
    {
        let _ = self;
        state.dec_indent();
    }
}

/// A handle that selects an output and remembers the one it replaced;
/// releasing it restores the previous output.
pub struct LogOutput {
    pub prev_output: Output,
}

impl LogOutput {
    /// Selects `output`, remembering the previous selection.
    pub fn new(state: &mut LogState, output: Output) -> (r: LogOutput)
        requires
            old(state).inv(),
        ensures
            final(state).inv(),
            r.prev_output == old(state).output,
            final(state).output == output,
            final(state).indents == old(state).indents,
            final(state).calculated_indent == old(state).calculated_indent,
            final(state).lines == old(state).lines,
    {
        let prev_output = state.output;
        state.set_output(output);
        LogOutput { prev_output }
    }

    /// Restores the output selected before this handle was created.
    pub fn release(self, state: &mut LogState)
        requires
            old(state).inv(),
        ensures
            final(state).inv(),
            final(state).output == self.prev_output,
            final(state).indents == old(state).indents,
            final(state).calculated_indent == old(state).calculated_indent,
            final(state).lines == old(state).lines,
    {
        state.set_output(self.prev_output);
    }
}

/// Selects where subsequent lines are sent.
pub fn set_log_output(state: &mut LogState, output: Output)
    requires
        old(state).inv(),
    ensures
        final(state).inv(),
        final(state).output == output,
        final(state).indents == old(state).indents,
        final(state).calculated_indent == old(state).calculated_indent,
        final(state).lines == old(state).lines,
{
    state.set_output(output);
}

/// Emits one finished line to the sink, or discards it when the output
/// is [`Output::Silent`].
pub fn logln_internal(sink: &mut Vec<(Output, String)>, output: Output, message: String)
    ensures
        (output is Silent ==> final(sink)@ == old(sink)@),
        (!(output is Silent) ==> final(sink)@ == old(sink)@.push((output, message))),
{
    match output {
        Output::Silent => {},
        _ => {
            sink.push((output, message));
        },
    }
}

/// Logs an action line: the indentation prefix, the action word, and the
/// subject.
pub fn log_action(state: &mut LogState, action: &str, subject: &str)
    requires
        old(state).inv(),
    ensures
        final(state).inv(),
        (old(state).output is Silent ==> final(state).lines@ == old(state).lines@),
        (!(old(state).output is Silent) ==> final(state).lines@.len() == old(state).lines@.len() + 1
            && final(state).lines@.last().0 == old(state).output
            && final(state).lines@.last().1@ == action_message(
            old(state).calculated_indent@,
            action@,
            subject@,
        ) && final(state).lines@.drop_last() == old(state).lines@),
        final(state).indents == old(state).indents,
        final(state).calculated_indent == old(state).calculated_indent,
        final(state).output == old(state).output,
{
    let mut message = clone_string(&state.calculated_indent);
    message.append(action);
    message.append(" ");
    message.append(subject);
    let out = state.output;
    let ghost pre = state.lines@;
    logln_internal(&mut state.lines, out, message);
    proof {
        if !(out is Silent) {
            assert(state.lines@.drop_last() =~= pre);
        }
    }
}

/// Clones a string, preserving its characters.
fn clone_string(s: &String) -> (r: String)
    ensures
        r@ == s@,
{
    s.clone()
}

/// Logs a warning action line. The message is shaped as in
/// [`log_action`]; the two differ only in how the output layer colours
/// the action word.
pub fn log_warn_action(state: &mut LogState, action: &str, subject: &str)
    requires
        old(state).inv(),
    ensures
        final(state).inv(),
        (old(state).output is Silent ==> final(state).lines@ == old(state).lines@),
        (!(old(state).output is Silent) ==> final(state).lines@.len() == old(state).lines@.len() + 1
            && final(state).lines@.last().0 == old(state).output
            && final(state).lines@.last().1@ == action_message(
            old(state).calculated_indent@,
            action@,
            subject@,
        ) && final(state).lines@.drop_last() == old(state).lines@),
        final(state).indents == old(state).indents,
        final(state).calculated_indent == old(state).calculated_indent,
        final(state).output == old(state).output,
{
    log_action(state, action, subject);
}

/// Logs an error action line; shaped as in [`log_action`].
pub fn log_error_action(state: &mut LogState, action: &str, subject: &str)
    requires
        old(state).inv(),
    ensures
        final(state).inv(),
        (old(state).output is Silent ==> final(state).lines@ == old(state).lines@),
        (!(old(state).output is Silent) ==> final(state).lines@.len() == old(state).lines@.len() + 1
            && final(state).lines@.last().0 == old(state).output
            && final(state).lines@.last().1@ == action_message(
            old(state).calculated_indent@,
            action@,
            subject@,
        ) && final(state).lines@.drop_last() == old(state).lines@),
        final(state).indents == old(state).indents,
        final(state).calculated_indent == old(state).calculated_indent,
        final(state).output == old(state).output,
{
    log_action(state, action, subject);
}

/// Logs a plain line under the current indentation.
pub fn logln(state: &mut LogState, message: &str)
    requires
        old(state).inv(),
    ensures
        final(state).inv(),
        (old(state).output is Silent ==> final(state).lines@ == old(state).lines@),
        (!(old(state).output is Silent) ==> final(state).lines@.len() == old(state).lines@.len() + 1
            && final(state).lines@.last().0 == old(state).output
            && final(state).lines@.last().1@ == old(state).calculated_indent@ + message@
            && final(state).lines@.drop_last() == old(state).lines@),
        final(state).indents == old(state).indents,
        final(state).calculated_indent == old(state).calculated_indent,
        final(state).output == old(state).output,
{
    let mut line = clone_string(&state.calculated_indent);
    line.append(message);
    let out = state.output;
    let ghost pre = state.lines@;
    logln_internal(&mut state.lines, out, line);
    proof {
        if !(out is Silent) {
            assert(state.lines@.drop_last() =~= pre);
        }
    }
}

/// Logs the standard skip notice for an up-to-date subject.
pub fn log_skipping_up_to_date(state: &mut LogState, subject: &str)
    requires
        old(state).inv(),
    ensures
        final(state).inv(),
        (old(state).output is Silent ==> final(state).lines@ == old(state).lines@),
        (!(old(state).output is Silent) ==> final(state).lines@.len() == old(state).lines@.len() + 1
            && final(state).lines@.last().1@ == action_message(
            old(state).calculated_indent@,
            "Skipping"@,
            subject@ + ", UP-TO-DATE"@,
        ) && final(state).lines@.drop_last() == old(state).lines@),
        final(state).indents == old(state).indents,
        final(state).calculated_indent == old(state).calculated_indent,
        final(state).output == old(state).output,
{
    let mut subj = String::from_str(subject);
    subj.append(", UP-TO-DATE");
    log_warn_action(state, "Skipping", subj.as_str());
}


/// A planned file operation whose execution must not clobber unexpected
/// content.
#[derive(Debug, Clone)]
pub enum OverwriteSafeAction {
    CopyFile { source: String, target: String },
    CopyFileTransformed { source: String, target: String, content: String },
    WriteFile { content: String, target: String },
}

/// How a planned file operation will be carried out.
#[derive(Debug, Clone, Copy, PartialEq, Eq, Structural)]
pub enum OverwriteSafeActionPlan {
    Create,
    Overwrite,
    SkipSameContent,
}

/// The action word logged for a plan on an action.
pub open spec fn plan_action_word(
    action: OverwriteSafeAction,
    plan: OverwriteSafeActionPlan,
) -> Seq<char> {
    match plan {
        OverwriteSafeActionPlan::Create => match action {
            OverwriteSafeAction::WriteFile { .. } => "Creating"@,
            _ => "Copying"@,
        },
        OverwriteSafeActionPlan::Overwrite => "Overwriting"@,
        OverwriteSafeActionPlan::SkipSameContent => "Skipping"@,
    }
}

/// The subject logged for a plan on an action.
pub open spec fn plan_subject(
    action: OverwriteSafeAction,
    plan: OverwriteSafeActionPlan,
) -> Seq<char> {
    match plan {
        OverwriteSafeActionPlan::Create => match action {
            OverwriteSafeAction::CopyFile { source, target } => source@ + " to "@ + target@,
            OverwriteSafeAction::CopyFileTransformed { source, target, .. } => source@ + " to "@
                + target@ + " transformed"@,
            OverwriteSafeAction::WriteFile { target, .. } => target@,
        },
        OverwriteSafeActionPlan::Overwrite => match action {
            OverwriteSafeAction::CopyFile { source, target } => target@ + " with "@ + source@,
            OverwriteSafeAction::CopyFileTransformed { source, target, .. } => target@ + " with "@
                + source@ + " transformed"@,
            OverwriteSafeAction::WriteFile { target, .. } => target@,
        },
        OverwriteSafeActionPlan::SkipSameContent => match action {
            OverwriteSafeAction::CopyFile { source, target } => "copying "@ + source@ + " to "@
                + target@ + ", content already up-to-date"@,
            OverwriteSafeAction::CopyFileTransformed { source, target, .. } => "copying "@
                + source@ + " to "@ + target@ + " transformed, content already up-to-date"@,
            OverwriteSafeAction::WriteFile { target, .. } => "generating "@ + target@
                + ", content already up-to-date"@,
        },
    }
}

/// Logs what will be done for a planned file operation: a plain action
/// line for a fresh file, a warning line for an overwrite or a
/// same-content skip.
pub fn log_action_plan(
    state: &mut LogState,
    action: &OverwriteSafeAction,
    plan: OverwriteSafeActionPlan,
)
    requires
        old(state).inv(),
    ensures
        final(state).inv(),
        (old(state).output is Silent ==> final(state).lines@ == old(state).lines@),
        (!(old(state).output is Silent) ==> final(state).lines@.len() == old(state).lines@.len() + 1
            && final(state).lines@.last().1@ == action_message(
            old(state).calculated_indent@,
            plan_action_word(*action, plan),
            plan_subject(*action, plan),
        ) && final(state).lines@.drop_last() == old(state).lines@),
        final(state).indents == old(state).indents,
        final(state).calculated_indent == old(state).calculated_indent,
        final(state).output == old(state).output,
{
    match plan {
        OverwriteSafeActionPlan::Create => match action {
            OverwriteSafeAction::CopyFile { source, target } => {
                let mut subj = clone_string(source);
                subj.append(" to ");
                subj.append(target.as_str());
                log_action(state, "Copying", subj.as_str());
            },
            OverwriteSafeAction::CopyFileTransformed { source, target, .. } => {
                let mut subj = clone_string(source);
                subj.append(" to ");
                subj.append(target.as_str());
                subj.append(" transformed");
                log_action(state, "Copying", subj.as_str());
            },
            OverwriteSafeAction::WriteFile { content: _, target } => {
                log_action(state, "Creating", target.as_str());
            },
        },
        OverwriteSafeActionPlan::Overwrite => match action {
            OverwriteSafeAction::CopyFile { source, target } => {
                let mut subj = clone_string(target);
                subj.append(" with ");
                subj.append(source.as_str());
                log_warn_action(state, "Overwriting", subj.as_str());
            },
            OverwriteSafeAction::CopyFileTransformed { source, target, .. } => {
                let mut subj = clone_string(target);
                subj.append(" with ");
                subj.append(source.as_str());
                subj.append(" transformed");
                log_warn_action(state, "Overwriting", subj.as_str());
            },
            OverwriteSafeAction::WriteFile { content: _, target } => {
                log_warn_action(state, "Overwriting", target.as_str());
            },
        },
        OverwriteSafeActionPlan::SkipSameContent => match action {
            OverwriteSafeAction::CopyFile { source, target } => {
                let mut subj = String::from_str("copying ");
                subj.append(source.as_str());
                subj.append(" to ");
                subj.append(target.as_str());
                subj.append(", content already up-to-date");
                log_warn_action(state, "Skipping", subj.as_str());
            },
            OverwriteSafeAction::CopyFileTransformed { source, target, .. } => {
                let mut subj = String::from_str("copying ");
                subj.append(source.as_str());
                subj.append(" to ");
                subj.append(target.as_str());
                subj.append(" transformed, content already up-to-date");
                log_warn_action(state, "Skipping", subj.as_str());
            },
            OverwriteSafeAction::WriteFile { content: _, target } => {
                let mut subj = String::from_str("generating ");
                subj.append(target.as_str());
                subj.append(", content already up-to-date");
                log_warn_action(state, "Skipping", subj.as_str());
            },
        },
    }
}

} // verus!
