//! The typewriter: walks a script of text, colored text and pauses, and on
//! each step reveals one more character of the current command, hands back
//! everything already shown, or reports a pause or the end of the script.

use crate::rael::Color;
use crate::underterm::fonts::StyledModel;
use crate::underterm::fonts::StyledText;
use vstd::prelude::*;
use vstd::string::StrSliceExecFns;
use vstd::string::StringExecFns;

verus! {

/// One step of a scripted text sequence: plain text, colored text, or a
/// pause in milliseconds.
#[derive(Debug, PartialEq, Eq)]
pub enum TextCommand {
    Text(String),
    ColoredText(String, Color),
    Delay(u64),
}

/// Ghost description of one script command.
#[verifier::ext_equal]
pub ghost enum CommandModel {
    Text(Seq<char>),
    ColoredText(Seq<char>, Color),
    Delay(u64),
}

impl View for TextCommand {
    type V = CommandModel;

    closed spec fn view(&self) -> CommandModel {
        match self {
            TextCommand::Text(s) => CommandModel::Text(s@),
            TextCommand::ColoredText(s, c) => CommandModel::ColoredText(s@, *c),
            TextCommand::Delay(d) => CommandModel::Delay(*d),
        }
    }
}

/// What one step of the typewriter asks the caller to do: draw the given
/// segments, wait the given milliseconds, or stop.
#[derive(Debug, PartialEq, Eq)]
pub enum WriterResult {
    Render(Vec<StyledText>),
    Wait(u64),
    Finished,
}

/// Ghost description of a step result.
#[verifier::ext_equal]
pub ghost enum ResultModel {
    Render(Seq<StyledModel>),
    Wait(u64),
    Finished,
}

/// The ghost view of each styled run in a vector, in order.
pub open spec fn styled_views(s: Seq<StyledText>) -> Seq<StyledModel> {
    s.map_values(|st: StyledText| st@)
}

/// The ghost view of each command in a script, in order.
pub open spec fn command_views(s: Seq<TextCommand>) -> Seq<CommandModel> {
    s.map_values(|c: TextCommand| c@)
}

impl View for WriterResult {
    type V = ResultModel;

    closed spec fn view(&self) -> ResultModel {
        match self {
            WriterResult::Render(v) => ResultModel::Render(styled_views(v@)),
            WriterResult::Wait(d) => ResultModel::Wait(*d),
            WriterResult::Finished => ResultModel::Finished,
        }
    }
}

/// The typewriter's progress: the script, the fully revealed commands, the
/// command being revealed and how many of its characters show.
pub struct TextWriter {
    script: Vec<TextCommand>,
    history: Vec<StyledText>,
    current_cmd_idx: usize,
    char_progress: usize,
}

/// Ghost description of the typewriter.
#[verifier::ext_equal]
pub ghost struct WriterModel {
    pub script: Seq<CommandModel>,
    pub history: Seq<StyledModel>,
    pub current_cmd_idx: int,
    pub char_progress: int,
}

impl View for TextWriter {
    type V = WriterModel;

    closed spec fn view(&self) -> WriterModel {
        WriterModel {
            script: command_views(self.script@),
            history: styled_views(self.history@),
            current_cmd_idx: self.current_cmd_idx as int,
            char_progress: self.char_progress as int,
        }
    }
}

/// The color plain text shows in.
pub open spec fn plain_white() -> Color {
    Color { r: 255, g: 255, b: 255 }
}

/// The segments a mid-command step displays: everything finished, plus the
/// first `progress + 1` characters of the current text in its color.
pub open spec fn step_render(m: WriterModel, full: Seq<char>, color: Color) -> ResultModel {
    let p = m.char_progress + 1;
    let shown = if p > full.len() {
        full
    } else {
        full.take(p)
    };
    ResultModel::Render(m.history.push(StyledModel { content: shown, fg: color }))
}

/// What one step returns, by the current command: text renders its next
/// prefix, a delay asks for a wait, a consumed script is finished.
pub open spec fn next_step_result(m: WriterModel) -> ResultModel {
    if m.current_cmd_idx >= m.script.len() {
        ResultModel::Finished
    } else {
        match m.script[m.current_cmd_idx] {
            CommandModel::Text(full) => step_render(m, full, plain_white()),
            CommandModel::ColoredText(full, c) => step_render(m, full, c),
            CommandModel::Delay(d) => ResultModel::Wait(d),
        }
    }
}

/// The typewriter after one step: progress advances by one character; a
/// command whose text is fully shown moves into the history and the cursor
/// to the next command; a delay is consumed whole.
pub open spec fn next_step_post(m: WriterModel) -> WriterModel {
    if m.current_cmd_idx >= m.script.len() {
        m
    } else {
        match m.script[m.current_cmd_idx] {
            CommandModel::Text(full) => step_post_text(m, full, plain_white()),
            CommandModel::ColoredText(full, c) => step_post_text(m, full, c),
            CommandModel::Delay(d) => WriterModel {
                current_cmd_idx: m.current_cmd_idx + 1,
                ..m
            },
        }
    }
}

/// The state change of one text-revealing step.
pub open spec fn step_post_text(m: WriterModel, full: Seq<char>, color: Color) -> WriterModel {
    let p = m.char_progress + 1;
    if p >= full.len() {
        WriterModel {
            history: m.history.push(StyledModel { content: full, fg: color }),
            char_progress: 0,
            current_cmd_idx: m.current_cmd_idx + 1,
            ..m
        }
    } else {
        WriterModel { char_progress: p, ..m }
    }
}

proof fn lemma_styled_views_push(s: Seq<StyledText>, st: StyledText)
    ensures
        styled_views(s.push(st)) == styled_views(s).push(st@),
{
    assert(styled_views(s.push(st)) =~= styled_views(s).push(st@));
}

fn clone_styled_vec(src: &Vec<StyledText>) -> (r: Vec<StyledText>)
    ensures
        r@ == src@,
{
    let mut r: Vec<StyledText> = Vec::new();
    let n = src.len();
    for k in 0..n
        invariant
            n == src@.len(),
            r@.len() == k,
            forall|i: int| 0 <= i < k ==> r@[i] == src@[i],
    {
        let st = &src[k];
        r.push(StyledText { content: st.content.clone(), fg: st.fg });
    }
    proof {
        assert(r@ =~= src@);
    }
    r
}

fn clone_commands(src: &[TextCommand]) -> (r: Vec<TextCommand>)
    ensures
        r@ == src@,
{
    let mut r: Vec<TextCommand> = Vec::new();
    let n = src.len();
    for k in 0..n
        invariant
            n == src@.len(),
            r@.len() == k,
            forall|i: int| 0 <= i < k ==> r@[i] == src@[i],
    {
        let copy = match &src[k] {
            TextCommand::Text(s) => TextCommand::Text(s.clone()),
            TextCommand::ColoredText(s, c) => TextCommand::ColoredText(s.clone(), *c),
            TextCommand::Delay(d) => TextCommand::Delay(*d),
        };
        r.push(copy);
    }
    proof {
        assert(r@ =~= src@);
    }
    r
}

impl TextWriter {
    /// The character counter stays clear of the machine's limit, so a step
    /// can always advance it.
    pub closed spec fn wf(&self) -> bool {
        self.char_progress < usize::MAX
    }

    /// A typewriter at the start of its own copy of `script`.
    pub fn new(script: &[TextCommand]) -> (w: TextWriter)
        ensures
            w.wf(),
            w@ == (WriterModel {
                script: command_views(script@),
                history: Seq::<StyledModel>::empty(),
                current_cmd_idx: 0,
                char_progress: 0,
            }),
    {
        let w = TextWriter {
            script: clone_commands(script),
            history: Vec::new(),
            current_cmd_idx: 0,
            char_progress: 0,
        };
        proof {
            assert(w@ =~~= (WriterModel {
                script: command_views(script@),
                history: Seq::<StyledModel>::empty(),
                current_cmd_idx: 0,
                char_progress: 0,
            }));
        }
        w
    }

    /// Advances the typewriter by one tick and reports what to do with it.
    pub fn next_step(&mut self) -> (r: WriterResult)
        requires
            old(self).wf(),
        ensures
            final(self).wf(),
            r@ == next_step_result(old(self)@),
            final(self)@ == next_step_post(old(self)@),
    {
        if self.current_cmd_idx >= self.script.len() {
            return WriterResult::Finished;
        }
        let idx = self.current_cmd_idx;
        let is_delay = match &self.script[idx] {
            TextCommand::Delay(_) => true,
            _ => false,
        };
        if is_delay {
            let d = match &self.script[idx] {
                TextCommand::Delay(d) => *d,
                _ => 0,
            };
            self.current_cmd_idx = idx + 1;
            proof {
                assert(self@ =~~= next_step_post(old(self)@));
            }
            return WriterResult::Wait(d);
        }
        let current_color = match &self.script[idx] {
            TextCommand::ColoredText(_, color) => *color,
            _ => Color::new(255, 255, 255),
        };
        let p = self.char_progress + 1;
        let (shown, full_len) = match &self.script[idx] {
            TextCommand::Text(full) | TextCommand::ColoredText(full, _) => {
                let full_len = full.as_str().unicode_len();
                let k = if p > full_len {
                    full_len
                } else {
                    p
                };
                (String::from_str(full.as_str().substring_char(0, k)), full_len)
            },
            TextCommand::Delay(_) => (String::new(), 0),
        };
        let ghost shown_view = shown@;
        proof {
            let m0 = old(self)@;
            let cmd = m0.script[m0.current_cmd_idx];
            match cmd {
                CommandModel::Text(full) => {
                    assert(shown_view =~= if p as int > full.len() {
                        full
                    } else {
                        full.take(p as int)
                    });
                },
                CommandModel::ColoredText(full, c) => {
                    assert(shown_view =~= if p as int > full.len() {
                        full
                    } else {
                        full.take(p as int)
                    });
                },
                CommandModel::Delay(d) => {},
            }
        }
        let mut display = clone_styled_vec(&self.history);
        let st = StyledText { content: shown, fg: current_color };
        proof {
            lemma_styled_views_push(display@, st);
        }
        display.push(st);
        proof {
            assert(styled_views(display@) == old(self)@.history.push(
                StyledModel { content: shown_view, fg: current_color },
            ));
        }
        if p >= full_len {
            let full_owned = match &self.script[idx] {
                TextCommand::Text(full) | TextCommand::ColoredText(full, _) => full.clone(),
                TextCommand::Delay(_) => String::new(),
            };
            let ghost full_view = full_owned@;
            let st2 = StyledText { content: full_owned, fg: current_color };
            proof {
                lemma_styled_views_push(self.history@, st2);
            }
            self.history.push(st2);
            self.char_progress = 0;
            self.current_cmd_idx = idx + 1;
            proof {
                assert(styled_views(self.history@) == old(self)@.history.push(
                    StyledModel { content: full_view, fg: current_color },
                ));
            }
        } else {
            self.char_progress = p;
        }
        proof {
            assert(self@ =~~= next_step_post(old(self)@));
        }
        WriterResult::Render(display)
    }
}

} // verus!
