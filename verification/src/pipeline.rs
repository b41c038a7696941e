//! From a line of input to a pipeline: whether the line runs in the
//! background, its stages, and for each stage the command and its arguments.

use crate::text::{
    chars_of, is_space, is_whitespace, joined, lemma_drop_spaces, lemma_pieces_first,
    lemma_pieces_single, lemma_skip_spaces, lemma_words_trimmed, occurs_at, pieces, skip_spaces,
    spells, split, split_words, trim, trimmed, words,
};
use vstd::prelude::*;
use vstd::string::*;

verus! {

/// The commands that the shell carries out itself.
#[derive(Clone, Copy, Debug, PartialEq, Eq, Structural)]
pub enum Builtin {
    /// `cd`: changes the working directory.
    Cd,
    /// `exit`: ends the shell.
    Exit,
    /// `setprompt`: replaces the prompt.
    SetPrompt,
    /// `env`: shows the environment.
    Env,
    /// `export`: binds variables.
    Export,
    /// `jobs`: lists the background jobs.
    Jobs,
}

/// One command of a line, borrowed from the line's text.
pub enum Stage<'a> {
    /// A stage without a word.
    Blank,
    /// A command of the shell itself, with its arguments.
    Builtin { command: Builtin, args: Vec<&'a str> },
    /// A program to run, with its arguments.
    External { name: &'a str, args: Vec<&'a str> },
}

/// A `Stage` over sequences of characters.
pub ghost enum StageView {
    Blank,
    Builtin { command: Builtin, args: Seq<Seq<char>> },
    External { name: Seq<char>, args: Seq<Seq<char>> },
}

impl<'a> View for Stage<'a> {
    type V = StageView;

    open spec fn view(&self) -> StageView {
        match self {
            Stage::Blank => StageView::Blank,
            Stage::Builtin { command, args } => StageView::Builtin {
                command: *command,
                args: args.deep_view(),
            },
            Stage::External { name, args } => StageView::External {
                name: name@,
                args: args.deep_view(),
            },
        }
    }
}

impl<'a> DeepView for Stage<'a> {
    type V = StageView;

    open spec fn deep_view(&self) -> StageView {
        self@
    }
}

/// The stages of one line, in order, and whether the line runs in the
/// background.
pub struct Pipeline<'a> {
    pub background: bool,
    pub stages: Vec<Stage<'a>>,
}

/// A `Pipeline` over sequences of characters.
pub ghost struct PipelineView {
    pub background: bool,
    pub stages: Seq<StageView>,
}

impl<'a> View for Pipeline<'a> {
    type V = PipelineView;

    open spec fn view(&self) -> PipelineView {
        PipelineView { background: self.background, stages: self.stages.deep_view() }
    }
}

/// The command of the shell that `name` names, if it names one.
pub open spec fn builtin_named(name: Seq<char>) -> Option<Builtin> {
    if name == "cd"@ {
        Some(Builtin::Cd)
    } else if name == "exit"@ {
        Some(Builtin::Exit)
    } else if name == "setprompt"@ {
        Some(Builtin::SetPrompt)
    } else if name == "env"@ {
        Some(Builtin::Env)
    } else if name == "export"@ {
        Some(Builtin::Export)
    } else if name == "jobs"@ {
        Some(Builtin::Jobs)
    } else {
        None
    }
}

/// The stage that `words` make: the first word names the command, the others
/// are its arguments.
pub open spec fn stage_of(words: Seq<Seq<char>>) -> StageView {
    if words.len() == 0 {
        StageView::Blank
    } else {
        match builtin_named(words[0]) {
            Some(command) => StageView::Builtin { command, args: words.skip(1) },
            None => StageView::External { name: words[0], args: words.skip(1) },
        }
    }
}

/// The text between stages.
pub open spec fn pipe() -> Seq<char> {
    " | "@
}

/// Whether `line`, which is trimmed, ends with the mark of a line that runs
/// in the background: `&` right after whitespace.
pub open spec fn marked_background(line: Seq<char>) -> bool {
    line.len() >= 2 && line[line.len() - 1] == '&' && is_space(line[line.len() - 2])
}

/// The part of `line` that holds the stages: the line trimmed, without the
/// mark of the background if it has one, and trimmed again.
pub open spec fn stages_text(line: Seq<char>) -> Seq<char> {
    let text = trimmed(line);
    if marked_background(text) {
        trimmed(text.subrange(0, text.len() - 2))
    } else {
        text
    }
}

/// The pipeline that `line` describes.
pub open spec fn pipeline_of(line: Seq<char>) -> PipelineView {
    let texts = pieces(stages_text(line), pipe());
    PipelineView {
        background: marked_background(trimmed(line)),
        stages: Seq::new(texts.len(), |i: int| stage_of(words(texts[i]))),
    }
}

/// Where the text between stages stands, a `|` follows the first space.
pub proof fn lemma_pipe_holds_a_bar(s: Seq<char>, j: int)
    requires
        occurs_at(s, pipe(), j),
    ensures
        pipe().len() == 3,
        j + 3 <= s.len(),
        s[j] == ' ',
        s[j + 1] == '|',
        s[j + 2] == ' ',
{
    reveal_strlit(" | ");
    let found = s.subrange(j, j + 3);
    assert(found[0] == s[j]);
    assert(found[1] == s[j + 1]);
    assert(found[2] == s[j + 2]);
}

/// Texts without `|`, put together with the text between stages, come
/// apart into the same texts.
pub proof fn lemma_stage_texts(parts: Seq<Seq<char>>)
    requires
        parts.len() >= 1,
        forall|k: int, j: int|
            0 <= k < parts.len() && 0 <= j < parts[k].len() ==> #[trigger] parts[k][j] != '|',
    ensures
        pieces(joined(parts, pipe()), pipe()) == parts,
    decreases parts.len(),
{
    reveal_strlit(" | ");
    if parts.len() == 1 {
        let only = parts[0];
        assert forall|j: int| 0 <= j implies !occurs_at(only, pipe(), j) by {
            if occurs_at(only, pipe(), j) {
                lemma_pipe_holds_a_bar(only, j);
                assert(parts[0][j + 1] != '|');
            }
        }
        lemma_pieces_single(only, pipe());
        assert(parts =~= seq![only]);
    } else {
        let first = parts[0];
        let others = parts.skip(1);
        let rest = joined(others, pipe());
        let whole = first + pipe() + rest;
        assert forall|k: int, j: int|
            0 <= k < others.len() && 0 <= j < others[k].len() implies #[trigger] others[k][j]
            != '|' by {
            assert(others[k] == parts[k + 1]);
            assert(parts[k + 1][j] != '|');
        }
        lemma_stage_texts(others);
        assert forall|j: int| 0 <= j < first.len() implies !occurs_at(whole, pipe(), j) by {
            if occurs_at(whole, pipe(), j) {
                lemma_pipe_holds_a_bar(whole, j);
                if j + 1 < first.len() {
                    assert(whole[j + 1] == parts[0][j + 1]);
                } else {
                    assert(whole[j + 1] == pipe()[0]);
                }
            }
        }
        lemma_pieces_first(first, pipe(), rest);
        assert(seq![first] + others =~= parts);
    }
}

/// A line whose trimmed text is made of texts without `|`, with the text
/// between stages between them, and that does not end with the mark of the
/// background, has one stage for each of the texts, made of its words, and
/// runs in the foreground.
pub proof fn theorem_stages_of_line(line: Seq<char>, parts: Seq<Seq<char>>)
    requires
        parts.len() >= 1,
        trimmed(line) == joined(parts, pipe()),
        !marked_background(trimmed(line)),
        forall|k: int, j: int|
            0 <= k < parts.len() && 0 <= j < parts[k].len() ==> #[trigger] parts[k][j] != '|',
    ensures
        pipeline_of(line) == (PipelineView {
            background: false,
            stages: Seq::new(parts.len(), |k: int| stage_of(words(parts[k]))),
        }),
{
    lemma_stage_texts(parts);
    assert(pipeline_of(line).stages =~= Seq::new(
        parts.len(),
        |k: int| stage_of(words(parts[k])),
    ));
}

/// A line that holds neither `|` nor `&` has exactly one stage, made of the
/// words of the line, and runs in the foreground.
pub proof fn theorem_line_without_pipe_is_one_stage(line: Seq<char>)
    requires
        forall|j: int| 0 <= j < line.len() ==> line[j] != '|' && line[j] != '&',
    ensures
        pipeline_of(line) == (PipelineView {
            background: false,
            stages: seq![stage_of(words(line))],
        }),
{
    let text = trimmed(line);
    lemma_words_trimmed(line);
    lemma_skip_spaces(line, 0);
    lemma_drop_spaces(line, line.len() as int);
    assert forall|j: int| 0 <= j < text.len() implies text[j] != '|' && text[j] != '&' by {
        assert(text[j] == line[skip_spaces(line, 0) + j]);
    }
    if text.len() >= 2 {
        assert(text[text.len() - 1] != '&');
    }
    let parts = seq![text];
    assert(joined(parts, pipe()) == text);
    assert forall|k: int, j: int|
        0 <= k < parts.len() && 0 <= j < parts[k].len() implies #[trigger] parts[k][j] != '|' by {
        assert(text[j] != '|');
    }
    theorem_stages_of_line(line, parts);
    assert(pipeline_of(line).stages =~= seq![stage_of(words(text))]);
}

/// A line `a | b | c`, where none of the three texts holds `|` and the
/// line does not end with the mark of the background, has the three stages
/// that the words of `a`, of `b` and of `c` make, in this order.
pub proof fn theorem_three_stage_line(line: Seq<char>, a: Seq<char>, b: Seq<char>, c: Seq<char>)
    requires
        trimmed(line) == a + pipe() + b + pipe() + c,
        !marked_background(trimmed(line)),
        forall|j: int| 0 <= j < a.len() ==> a[j] != '|',
        forall|j: int| 0 <= j < b.len() ==> b[j] != '|',
        forall|j: int| 0 <= j < c.len() ==> c[j] != '|',
    ensures
        pipeline_of(line) == (PipelineView {
            background: false,
            stages: seq![stage_of(words(a)), stage_of(words(b)), stage_of(words(c))],
        }),
{
    let parts = seq![a, b, c];
    assert(parts.skip(1) =~= seq![b, c]);
    assert(parts.skip(1).skip(1) =~= seq![c]);
    assert(joined(seq![c], pipe()) == c);
    assert(joined(seq![b, c], pipe()) == b + pipe() + joined(seq![b, c].skip(1), pipe()));
    assert(seq![b, c].skip(1) =~= seq![c]);
    assert(joined(parts, pipe()) == a + pipe() + joined(parts.skip(1), pipe()));
    assert(joined(parts, pipe()) =~= a + pipe() + b + pipe() + c);
    assert forall|k: int, j: int|
        0 <= k < parts.len() && 0 <= j < parts[k].len() implies #[trigger] parts[k][j] != '|' by {
        if k == 0 {
            assert(a[j] != '|');
        } else if k == 1 {
            assert(b[j] != '|');
        } else {
            assert(c[j] != '|');
        }
    }
    theorem_stages_of_line(line, parts);
    assert(pipeline_of(line).stages =~= seq![
        stage_of(words(a)),
        stage_of(words(b)),
        stage_of(words(c)),
    ]);
}

/// The command of the shell that `name` names, if it names one.
pub fn builtin(name: &str) -> (r: Option<Builtin>)
    ensures
        r == builtin_named(name@),
{
    let chars = chars_of(name);
    if spells(&chars, "cd") {
        Some(Builtin::Cd)
    } else if spells(&chars, "exit") {
        Some(Builtin::Exit)
    } else if spells(&chars, "setprompt") {
        Some(Builtin::SetPrompt)
    } else if spells(&chars, "env") {
        Some(Builtin::Env)
    } else if spells(&chars, "export") {
        Some(Builtin::Export)
    } else if spells(&chars, "jobs") {
        Some(Builtin::Jobs)
    } else {
        None
    }
}

/// The stage that the words of `text` make.
pub fn parse_stage<'a>(text: &'a str) -> (stage: Stage<'a>)
    ensures
        stage@ == stage_of(words(text@)),
{
    let mut args = split_words(text);
    if args.len() == 0 {
        return Stage::Blank;
    }
    let ghost all = args.deep_view();
    let name = args.remove(0);
    assert(args.deep_view() =~= all.skip(1));
    assert(name@ == all[0]);
    match builtin(name) {
        Some(command) => Stage::Builtin { command, args },
        None => Stage::External { name, args },
    }
}

/// The pipeline that `line` describes.
pub fn parse_line<'a>(line: &'a str) -> (pipeline: Pipeline<'a>)
    ensures
        pipeline@ == pipeline_of(line@),
{
    let text = trim(line);
    let chars = chars_of(text);
    let n = chars.len();
    let background = n >= 2 && chars[n - 1] == '&' && is_whitespace(chars[n - 2]);
    let body = if background {
        trim(text.substring_char(0, n - 2))
    } else {
        text
    };
    proof {
        reveal_strlit(" | ");
    }
    let texts = split(body, " | ");
    let mut stages: Vec<Stage<'a>> = Vec::new();
    let mut i: usize = 0;
    while i < texts.len()
        invariant
            i <= texts.len(),
            texts.deep_view() == pieces(stages_text(line@), pipe()),
            stages.deep_view() == pipeline_of(line@).stages.take(i as int),
        decreases texts.len() - i,
    {
        let stage = parse_stage(texts[i]);
        assert(texts.deep_view()[i as int] == texts[i as int]@);
        let ghost before = stages.deep_view();
        stages.push(stage);
        assert(stages.deep_view() =~= before.push(stage@));
        assert(stages.deep_view() =~= pipeline_of(line@).stages.take(i + 1));
        i += 1;
    }
    assert(stages.deep_view() =~= pipeline_of(line@).stages);
    Pipeline { background, stages }
}

} // verus!
