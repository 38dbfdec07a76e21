//! The parser: a token sequence to a command tree.
//!
//! The grammar, outermost first: a chain of pipelines joined by `&&` and `||`;
//! a pipeline of stages joined by `|`; a stage, which is a simple command
//! followed by any number of redirections; a simple command, which is a run of
//! words, possibly ended by `&`.
//!
//! Words are expanded while a simple command is read. What expansion needs
//! from outside (the output of a substituted command, the paths that match a
//! glob pattern) comes from a record of answers; where an answer is missing
//! the parse halts and names the request.

use vstd::prelude::*;
use vstd::string::*;

use crate::error::{ErrorView, ShellError};
use crate::expand::{
    argv_entries, entries_spec, expand_glob, expand_spec, expand_tilde, expand_word_with_subst,
    has_glob_meta, is_glob_pattern, lemma_expand_stable, lookup, output_views, tilde_spec,
    Environment, ExpandedView, Expansion,
};
use crate::lexer::{token_views, tokenize, tokenize_spec, Token, TokenView};
use crate::text::{ordered, texts};

verus! {

/// A node of the command tree.
#[derive(Debug, PartialEq, Eq)]
pub enum CommandPart {
    /// One program with its arguments; `argv` is never empty in a parsed tree.
    Simple { argv: Vec<String>, background: bool },
    /// `left | right`
    Pipe { left: Box<CommandPart>, right: Box<CommandPart> },
    /// `cmd > file`, or `cmd >> file` where `append` is set.
    RedirectOut { cmd: Box<CommandPart>, file: String, append: bool },
    /// `cmd < file`
    RedirectIn { cmd: Box<CommandPart>, file: String },
    /// `left && right` where `and` is set, else `left || right`.
    Chain { left: Box<CommandPart>, right: Box<CommandPart>, and: bool },
}

/// The mathematical value of a [`CommandPart`].
pub ghost enum TreeView {
    Simple { argv: Seq<Seq<char>>, background: bool },
    Pipe { left: Box<TreeView>, right: Box<TreeView> },
    RedirectOut { cmd: Box<TreeView>, file: Seq<char>, append: bool },
    RedirectIn { cmd: Box<TreeView>, file: Seq<char> },
    Chain { left: Box<TreeView>, right: Box<TreeView>, and: bool },
}

impl View for CommandPart {
    type V = TreeView;

    open spec fn view(&self) -> TreeView
        decreases self,
    {
        match self {
            CommandPart::Simple { argv, background } => TreeView::Simple {
                argv: texts(argv@),
                background: *background,
            },
            CommandPart::Pipe { left, right } => TreeView::Pipe {
                left: Box::new((**left).view()),
                right: Box::new((**right).view()),
            },
            CommandPart::RedirectOut { cmd, file, append } => TreeView::RedirectOut {
                cmd: Box::new((**cmd).view()),
                file: file@,
                append: *append,
            },
            CommandPart::RedirectIn { cmd, file } => TreeView::RedirectIn {
                cmd: Box::new((**cmd).view()),
                file: file@,
            },
            CommandPart::Chain { left, right, and } => TreeView::Chain {
                left: Box::new((**left).view()),
                right: Box::new((**right).view()),
                and: *and,
            },
        }
    }
}

impl TreeView {
    /// Whether every simple command of the tree has at least one argument.
    pub open spec fn well_formed(self) -> bool
        decreases self,
    {
        match self {
            TreeView::Simple { argv, .. } => argv.len() > 0,
            TreeView::Pipe { left, right } => left.well_formed() && right.well_formed(),
            TreeView::RedirectOut { cmd, .. } => cmd.well_formed(),
            TreeView::RedirectIn { cmd, .. } => cmd.well_formed(),
            TreeView::Chain { left, right, .. } => left.well_formed() && right.well_formed(),
        }
    }
}

/// What the outside world has answered so far to the requests of a parse, in
/// the order in which they were made.
#[derive(Debug, PartialEq, Eq)]
pub struct Answers {
    /// The standard output of each substituted command, `None` where the
    /// command could not be run.
    pub outputs: Vec<Option<String>>,
    /// The paths that matched each glob pattern.
    pub matches: Vec<Vec<String>>,
}

/// The mathematical value of [`Answers`].
pub ghost struct AnswersView {
    pub outputs: Seq<Option<Seq<char>>>,
    pub matches: Seq<Seq<Seq<char>>>,
}

/// The views of the match lists, in order.
pub open spec fn match_views(v: Seq<Vec<String>>) -> Seq<Seq<Seq<char>>> {
    v.map_values(|m: Vec<String>| texts(m@))
}

impl View for Answers {
    type V = AnswersView;

    open spec fn view(&self) -> AnswersView {
        AnswersView { outputs: output_views(self.outputs@), matches: match_views(self.matches@) }
    }
}

impl Answers {
    /// A record without answers.
    pub fn new() -> (answers: Answers)
        ensures
            answers@.outputs.len() == 0,
            answers@.matches.len() == 0,
    {
        Answers { outputs: Vec::new(), matches: Vec::new() }
    }
}

/// Why a parse stopped without a tree.
#[derive(Debug, PartialEq, Eq)]
pub enum Halt {
    /// The line is malformed, or an expansion failed.
    Error(ShellError),
    /// The output of this command line is needed: run it, add its output to
    /// the answers and parse again.
    NeedSubstitution(String),
    /// The paths that match this pattern are needed.
    NeedGlob(String),
}

/// The mathematical value of a [`Halt`].
pub ghost enum HaltView {
    Error(ErrorView),
    NeedSubstitution(Seq<char>),
    NeedGlob(Seq<char>),
}

impl View for Halt {
    type V = HaltView;

    open spec fn view(&self) -> HaltView {
        match self {
            Halt::Error(e) => HaltView::Error(e@),
            Halt::NeedSubstitution(c) => HaltView::NeedSubstitution(c@),
            Halt::NeedGlob(p) => HaltView::NeedGlob(p@),
        }
    }
}

/// How far a parse has come: the next token, and how many answers of each
/// kind are used up.
#[derive(Debug, Clone, Copy, PartialEq, Eq)]
pub struct Cursor {
    pub next: usize,
    pub outputs: usize,
    pub globs: usize,
}

/// The mathematical value of a [`Cursor`].
pub ghost struct Mark {
    pub next: int,
    pub outputs: nat,
    pub globs: nat,
}

impl View for Cursor {
    type V = Mark;

    open spec fn view(&self) -> Mark {
        Mark { next: self.next as int, outputs: self.outputs as nat, globs: self.globs as nat }
    }
}

impl Mark {
    /// The mark at the start of a parse.
    pub open spec fn start() -> Mark {
        Mark { next: 0, outputs: 0, globs: 0 }
    }

    /// This mark, one token further.
    pub open spec fn step(self) -> Mark {
        Mark { next: self.next + 1, ..self }
    }
}

/// The halt for a malformed line, with its message.
pub open spec fn malformed(message: Seq<char>) -> HaltView {
    HaltView::Error(ErrorView::Other(message))
}

/// The outcome of a parsing step: a tree and the mark after it, or a halt.
pub type Parsed = Result<(TreeView, Mark), HaltView>;

/// The argument entries that the word `word` gives when it is read at mark
/// `m`, with the numbers of outputs and of match lists used up after it.
///
/// The word is expanded; where the expanded text is a glob pattern the next
/// match list decides: no match leaves the text as the one entry.
pub open spec fn word_spec(
    word: Seq<char>,
    env: Seq<(Seq<char>, Seq<char>)>,
    ans: AnswersView,
    m: Mark,
) -> Result<(Seq<Seq<char>>, nat, nat), HaltView> {
    match expand_spec(word, env, ans.outputs, m.outputs) {
        ExpandedView::Need { command } => Err(HaltView::NeedSubstitution(command)),
        ExpandedView::Failed => Err(malformed("command substitution failed"@)),
        ExpandedView::Done { text, used } => if !has_glob_meta(text) {
            Ok((seq![text], used, m.globs))
        } else if m.globs >= ans.matches.len() {
            Err(HaltView::NeedGlob(text))
        } else {
            Ok((entries_spec(text, ans.matches[m.globs as int]), used, m.globs + 1))
        },
    }
}

/// The simple command that ends at mark `m` with the arguments `argv`: an
/// error where there are none.
pub open spec fn finish_simple(argv: Seq<Seq<char>>, background: bool, m: Mark) -> Parsed {
    if argv.len() == 0 {
        Err(malformed("empty command"@))
    } else {
        Ok((TreeView::Simple { argv, background }, m))
    }
}

/// The simple command whose words so far gave `argv`, read on from mark `m`:
/// each word adds its entries; `&` ends the command and marks it as a
/// background command; any other token, or the end, ends it too.
pub open spec fn simple_from(
    tokens: Seq<TokenView>,
    env: Seq<(Seq<char>, Seq<char>)>,
    ans: AnswersView,
    m: Mark,
    argv: Seq<Seq<char>>,
) -> Parsed
    decreases tokens.len() - m.next,
{
    if m.next < 0 || m.next >= tokens.len() {
        finish_simple(argv, false, m)
    } else {
        match tokens[m.next] {
            TokenView::Word(word) => match word_spec(word, env, ans, m) {
                Err(halt) => Err(halt),
                Ok((entries, outputs, globs)) => simple_from(
                    tokens,
                    env,
                    ans,
                    Mark { next: m.next + 1, outputs, globs },
                    argv + entries,
                ),
            },
            TokenView::Background => finish_simple(argv, true, m.step()),
            _ => finish_simple(argv, false, m),
        }
    }
}

/// The simple command that starts at mark `m`.
pub open spec fn simple_spec(
    tokens: Seq<TokenView>,
    env: Seq<(Seq<char>, Seq<char>)>,
    ans: AnswersView,
    m: Mark,
) -> Parsed {
    simple_from(tokens, env, ans, m, Seq::empty())
}

/// Whether `t` is one of the three redirection operators.
pub open spec fn is_redirect(t: TokenView) -> bool {
    t is RedirectOut || t is RedirectAppend || t is RedirectIn
}

/// The message for a redirection operator at the end of the line.
pub open spec fn missing_filename(op: TokenView) -> Seq<char> {
    match op {
        TokenView::RedirectOut => "redirect output: missing filename"@,
        TokenView::RedirectAppend => "redirect append: missing filename"@,
        _ => "redirect input: missing filename"@,
    }
}

/// The message for a redirection operator that is not followed by a word.
pub open spec fn expected_filename(op: TokenView) -> Seq<char> {
    match op {
        TokenView::RedirectOut => "redirect output: expected filename"@,
        TokenView::RedirectAppend => "redirect append: expected filename"@,
        _ => "redirect input: expected filename"@,
    }
}

/// `cmd` wrapped in the redirection `op` to or from `file`.
pub open spec fn wrap_redirect(op: TokenView, cmd: TreeView, file: Seq<char>) -> TreeView {
    match op {
        TokenView::RedirectOut => TreeView::RedirectOut { cmd: Box::new(cmd), file, append: false },
        TokenView::RedirectAppend => TreeView::RedirectOut {
            cmd: Box::new(cmd),
            file,
            append: true,
        },
        _ => TreeView::RedirectIn { cmd: Box::new(cmd), file },
    }
}

/// The stage whose command so far is `cmd`, read on from mark `m`: each
/// redirection operator must be followed by a word, the file name, of which
/// only the tilde is expanded, and wraps the command once more.
pub open spec fn redirect_rest(
    tokens: Seq<TokenView>,
    env: Seq<(Seq<char>, Seq<char>)>,
    m: Mark,
    cmd: TreeView,
) -> Parsed
    decreases tokens.len() - m.next,
{
    if m.next < 0 || m.next >= tokens.len() || !is_redirect(tokens[m.next]) {
        Ok((cmd, m))
    } else if m.next + 1 >= tokens.len() {
        Err(malformed(missing_filename(tokens[m.next])))
    } else {
        match tokens[m.next + 1] {
            TokenView::Word(file) => redirect_rest(
                tokens,
                env,
                m.step().step(),
                wrap_redirect(tokens[m.next], cmd, tilde_spec(file, lookup(env, "HOME"@))),
            ),
            _ => Err(malformed(expected_filename(tokens[m.next]))),
        }
    }
}

/// The stage that starts at mark `m`: a simple command and its redirections.
pub open spec fn redirect_spec(
    tokens: Seq<TokenView>,
    env: Seq<(Seq<char>, Seq<char>)>,
    ans: AnswersView,
    m: Mark,
) -> Parsed {
    match simple_spec(tokens, env, ans, m) {
        Err(halt) => Err(halt),
        Ok((cmd, after)) => redirect_rest(tokens, env, after, cmd),
    }
}

/// The pipeline whose stages so far fold to `left`, read on from mark `m`:
/// each `|` that is followed by anything adds the next stage on the right. A
/// `|` at the very end is passed over.
pub open spec fn pipe_rest(
    tokens: Seq<TokenView>,
    env: Seq<(Seq<char>, Seq<char>)>,
    ans: AnswersView,
    m: Mark,
    left: TreeView,
) -> Parsed
    decreases tokens.len() - m.next,
    via pipe_rest_terminates
{
    if m.next < 0 || m.next >= tokens.len() || !(tokens[m.next] is Pipe) {
        Ok((left, m))
    } else if m.next + 1 >= tokens.len() {
        Ok((left, m.step()))
    } else {
        match redirect_spec(tokens, env, ans, m.step()) {
            Err(halt) => Err(halt),
            Ok((right, after)) => pipe_rest(
                tokens,
                env,
                ans,
                after,
                TreeView::Pipe { left: Box::new(left), right: Box::new(right) },
            ),
        }
    }
}

#[via_fn]
proof fn pipe_rest_terminates(
    tokens: Seq<TokenView>,
    env: Seq<(Seq<char>, Seq<char>)>,
    ans: AnswersView,
    m: Mark,
    left: TreeView,
) {
    if 0 <= m.next && m.next + 1 < tokens.len() {
        lemma_redirect_spec(tokens, env, ans, m.step());
    }
}

/// The pipeline that starts at mark `m`.
pub open spec fn pipe_spec(
    tokens: Seq<TokenView>,
    env: Seq<(Seq<char>, Seq<char>)>,
    ans: AnswersView,
    m: Mark,
) -> Parsed {
    match redirect_spec(tokens, env, ans, m) {
        Err(halt) => Err(halt),
        Ok((first, after)) => pipe_rest(tokens, env, ans, after, first),
    }
}

/// Whether `t` is `&&` or `||`.
pub open spec fn is_chain_operator(t: TokenView) -> bool {
    t is And || t is Or
}

/// The chain whose pipelines so far fold to `left`, read on from mark `m`:
/// each `&&` or `||` that is followed by anything adds the next pipeline on
/// the right, whichever of the two operators it is. An operator at the very
/// end is passed over; any other token ends the chain.
pub open spec fn chain_rest(
    tokens: Seq<TokenView>,
    env: Seq<(Seq<char>, Seq<char>)>,
    ans: AnswersView,
    m: Mark,
    left: TreeView,
) -> Parsed
    decreases tokens.len() - m.next,
    via chain_rest_terminates
{
    if m.next < 0 || m.next >= tokens.len() || !is_chain_operator(tokens[m.next]) {
        Ok((left, m))
    } else if m.next + 1 >= tokens.len() {
        Ok((left, m.step()))
    } else {
        match pipe_spec(tokens, env, ans, m.step()) {
            Err(halt) => Err(halt),
            Ok((right, after)) => chain_rest(
                tokens,
                env,
                ans,
                after,
                TreeView::Chain {
                    left: Box::new(left),
                    right: Box::new(right),
                    and: tokens[m.next] is And,
                },
            ),
        }
    }
}

#[via_fn]
proof fn chain_rest_terminates(
    tokens: Seq<TokenView>,
    env: Seq<(Seq<char>, Seq<char>)>,
    ans: AnswersView,
    m: Mark,
    left: TreeView,
) {
    if 0 <= m.next && m.next + 1 < tokens.len() {
        lemma_pipe_spec(tokens, env, ans, m.step());
    }
}

/// The tree of a whole token sequence.
pub open spec fn chain_spec(
    tokens: Seq<TokenView>,
    env: Seq<(Seq<char>, Seq<char>)>,
    ans: AnswersView,
) -> Result<TreeView, HaltView> {
    match pipe_spec(tokens, env, ans, Mark::start()) {
        Err(halt) => Err(halt),
        Ok((first, after)) => match chain_rest(tokens, env, ans, after, first) {
            Err(halt) => Err(halt),
            Ok((tree, _)) => Ok(tree),
        },
    }
}

/// The tree of the line `input`.
pub open spec fn parse_spec(
    input: Seq<char>,
    env: Seq<(Seq<char>, Seq<char>)>,
    ans: AnswersView,
) -> Result<TreeView, HaltView> {
    chain_spec(tokenize_spec(input), env, ans)
}

/// What holds of every outcome `r` of a parsing step that started at `m`: a
/// tree is well formed and its mark lies between `m` and the end; no more
/// match lists are used than tokens were read; and a request for a match list
/// means that fewer lists are known than there are tokens.
pub open spec fn step_ok(tokens: Seq<TokenView>, ans: AnswersView, m: Mark, r: Parsed) -> bool {
    match r {
        Ok((tree, after)) => {
            &&& tree.well_formed()
            &&& m.next <= after.next <= tokens.len()
            &&& m.globs <= m.next ==> after.globs <= after.next
        },
        Err(HaltView::NeedGlob(_)) => m.globs <= m.next ==> ans.matches.len() < tokens.len(),
        Err(_) => true,
    }
}

/// A simple command that parses has arguments, and ends at or after its
/// start; it ends after its start where it began without arguments.
pub proof fn lemma_simple_from(
    tokens: Seq<TokenView>,
    env: Seq<(Seq<char>, Seq<char>)>,
    ans: AnswersView,
    m: Mark,
    argv: Seq<Seq<char>>,
)
    requires
        0 <= m.next <= tokens.len(),
    ensures
        step_ok(tokens, ans, m, simple_from(tokens, env, ans, m, argv)),
    decreases tokens.len() - m.next,
{
    if m.next < tokens.len() {
        match tokens[m.next] {
            TokenView::Word(word) => match word_spec(word, env, ans, m) {
                Err(halt) => {},
                Ok((entries, outputs, globs)) => {
                    lemma_simple_from(
                        tokens,
                        env,
                        ans,
                        Mark { next: m.next + 1, outputs, globs },
                        argv + entries,
                    );
                },
            },
            _ => {},
        }
    }
}

/// Redirections keep a well-formed command well formed and never move the
/// mark back.
pub proof fn lemma_redirect_rest(
    tokens: Seq<TokenView>,
    env: Seq<(Seq<char>, Seq<char>)>,
    ans: AnswersView,
    m: Mark,
    cmd: TreeView,
)
    requires
        0 <= m.next <= tokens.len(),
        cmd.well_formed(),
    ensures
        step_ok(tokens, ans, m, redirect_rest(tokens, env, m, cmd)),
    decreases tokens.len() - m.next,
{
    if m.next < tokens.len() && is_redirect(tokens[m.next]) && m.next + 1 < tokens.len() {
        match tokens[m.next + 1] {
            TokenView::Word(file) => {
                lemma_redirect_rest(
                    tokens,
                    env,
                    ans,
                    m.step().step(),
                    wrap_redirect(tokens[m.next], cmd, tilde_spec(file, lookup(env, "HOME"@))),
                );
            },
            _ => {},
        }
    }
}

/// What [`step_ok`] says holds of a stage.
pub proof fn lemma_redirect_spec(
    tokens: Seq<TokenView>,
    env: Seq<(Seq<char>, Seq<char>)>,
    ans: AnswersView,
    m: Mark,
)
    requires
        0 <= m.next <= tokens.len(),
    ensures
        step_ok(tokens, ans, m, redirect_spec(tokens, env, ans, m)),
{
    lemma_simple_from(tokens, env, ans, m, Seq::empty());
    match simple_spec(tokens, env, ans, m) {
        Err(halt) => {},
        Ok((cmd, after)) => {
            lemma_redirect_rest(tokens, env, ans, after, cmd);
        },
    }
}

/// What [`step_ok`] says holds of the rest of a pipeline.
pub proof fn lemma_pipe_rest(
    tokens: Seq<TokenView>,
    env: Seq<(Seq<char>, Seq<char>)>,
    ans: AnswersView,
    m: Mark,
    left: TreeView,
)
    requires
        0 <= m.next <= tokens.len(),
        left.well_formed(),
    ensures
        step_ok(tokens, ans, m, pipe_rest(tokens, env, ans, m, left)),
    decreases tokens.len() - m.next,
{
    if m.next < tokens.len() && tokens[m.next] is Pipe && m.next + 1 < tokens.len() {
        lemma_redirect_spec(tokens, env, ans, m.step());
        match redirect_spec(tokens, env, ans, m.step()) {
            Err(halt) => {},
            Ok((right, after)) => {
                lemma_pipe_rest(
                    tokens,
                    env,
                    ans,
                    after,
                    TreeView::Pipe { left: Box::new(left), right: Box::new(right) },
                );
            },
        }
    }
}

/// What [`step_ok`] says holds of a pipeline.
pub proof fn lemma_pipe_spec(
    tokens: Seq<TokenView>,
    env: Seq<(Seq<char>, Seq<char>)>,
    ans: AnswersView,
    m: Mark,
)
    requires
        0 <= m.next <= tokens.len(),
    ensures
        step_ok(tokens, ans, m, pipe_spec(tokens, env, ans, m)),
{
    lemma_redirect_spec(tokens, env, ans, m);
    match redirect_spec(tokens, env, ans, m) {
        Err(halt) => {},
        Ok((first, after)) => {
            lemma_pipe_rest(tokens, env, ans, after, first);
        },
    }
}

/// What [`step_ok`] says holds of the rest of a chain.
pub proof fn lemma_chain_rest(
    tokens: Seq<TokenView>,
    env: Seq<(Seq<char>, Seq<char>)>,
    ans: AnswersView,
    m: Mark,
    left: TreeView,
)
    requires
        0 <= m.next <= tokens.len(),
        left.well_formed(),
    ensures
        step_ok(tokens, ans, m, chain_rest(tokens, env, ans, m, left)),
    decreases tokens.len() - m.next,
{
    if m.next < tokens.len() && is_chain_operator(tokens[m.next]) && m.next + 1 < tokens.len() {
        lemma_pipe_spec(tokens, env, ans, m.step());
        match pipe_spec(tokens, env, ans, m.step()) {
            Err(halt) => {},
            Ok((right, after)) => {
                lemma_chain_rest(
                    tokens,
                    env,
                    ans,
                    after,
                    TreeView::Chain {
                        left: Box::new(left),
                        right: Box::new(right),
                        and: tokens[m.next] is And,
                    },
                );
            },
        }
    }
}

/// A parsed tree is never empty: each of its simple commands has at least one
/// argument. And a parse asks for the matches of a pattern only while it
/// knows fewer match lists than the line has tokens.
pub proof fn lemma_chain_spec(
    tokens: Seq<TokenView>,
    env: Seq<(Seq<char>, Seq<char>)>,
    ans: AnswersView,
)
    ensures
        match chain_spec(tokens, env, ans) {
            Ok(tree) => tree.well_formed(),
            Err(HaltView::NeedGlob(_)) => ans.matches.len() < tokens.len(),
            Err(_) => true,
        },
{
    lemma_pipe_spec(tokens, env, ans, Mark::start());
    match pipe_spec(tokens, env, ans, Mark::start()) {
        Err(halt) => {},
        Ok((first, after)) => {
            lemma_chain_rest(tokens, env, ans, after, first);
        },
    }
}

impl AnswersView {
    /// The record with more answers at its end.
    pub open spec fn with(
        self,
        outputs: Seq<Option<Seq<char>>>,
        matches: Seq<Seq<Seq<char>>>,
    ) -> AnswersView {
        AnswersView { outputs: self.outputs + outputs, matches: self.matches + matches }
    }

    /// Whether the mark `m` counts no more answers than the record holds.
    pub open spec fn covers(self, m: Mark) -> bool {
        m.outputs <= self.outputs.len() && m.globs <= self.matches.len()
    }
}

/// Whether a parsing step has come to its end with the answers it was given:
/// it has a tree or an error, and asks for nothing.
pub open spec fn decided<T>(r: Result<T, HaltView>) -> bool {
    match r {
        Ok(_) => true,
        Err(HaltView::Error(_)) => true,
        Err(_) => false,
    }
}

/// The entries of a word stay as they are when more answers follow.
pub proof fn lemma_word_stable(
    word: Seq<char>,
    env: Seq<(Seq<char>, Seq<char>)>,
    ans: AnswersView,
    outputs: Seq<Option<Seq<char>>>,
    matches: Seq<Seq<Seq<char>>>,
    m: Mark,
)
    requires
        ans.covers(m),
        decided(word_spec(word, env, ans, m)),
    ensures
        word_spec(word, env, ans.with(outputs, matches), m) == word_spec(word, env, ans, m),
        word_spec(word, env, ans, m) matches Ok((_, o, g)) ==> o <= ans.outputs.len() && g
            <= ans.matches.len(),
{
    lemma_expand_stable(
        tilde_spec(word, lookup(env, "HOME"@)),
        0,
        env,
        ans.outputs,
        outputs,
        m.outputs,
        Seq::empty(),
    );
    if m.globs < ans.matches.len() {
        assert((ans.matches + matches)[m.globs as int] == ans.matches[m.globs as int]);
    }
}

/// A simple command stays as it is when more answers follow.
pub proof fn lemma_simple_stable(
    tokens: Seq<TokenView>,
    env: Seq<(Seq<char>, Seq<char>)>,
    ans: AnswersView,
    outputs: Seq<Option<Seq<char>>>,
    matches: Seq<Seq<Seq<char>>>,
    m: Mark,
    argv: Seq<Seq<char>>,
)
    requires
        ans.covers(m),
        decided(simple_from(tokens, env, ans, m, argv)),
    ensures
        simple_from(tokens, env, ans.with(outputs, matches), m, argv) == simple_from(
            tokens,
            env,
            ans,
            m,
            argv,
        ),
        simple_from(tokens, env, ans, m, argv) matches Ok((_, after)) ==> ans.covers(after),
    decreases tokens.len() - m.next,
{
    if 0 <= m.next < tokens.len() {
        match tokens[m.next] {
            TokenView::Word(word) => {
                lemma_word_stable(word, env, ans, outputs, matches, m);
                match word_spec(word, env, ans, m) {
                    Ok((entries, o, g)) => {
                        lemma_simple_stable(
                            tokens,
                            env,
                            ans,
                            outputs,
                            matches,
                            Mark { next: m.next + 1, outputs: o, globs: g },
                            argv + entries,
                        );
                    },
                    Err(_) => {},
                }
            },
            _ => {},
        }
    }
}

/// Redirections use no answers: they leave the counts of the mark alone.
pub proof fn lemma_redirect_keeps_counts(
    tokens: Seq<TokenView>,
    env: Seq<(Seq<char>, Seq<char>)>,
    m: Mark,
    cmd: TreeView,
)
    ensures
        redirect_rest(tokens, env, m, cmd) matches Ok((_, after)) ==> after.outputs == m.outputs
            && after.globs == m.globs,
    decreases tokens.len() - m.next,
{
    if 0 <= m.next < tokens.len() && is_redirect(tokens[m.next]) && m.next + 1 < tokens.len() {
        match tokens[m.next + 1] {
            TokenView::Word(file) => {
                lemma_redirect_keeps_counts(
                    tokens,
                    env,
                    m.step().step(),
                    wrap_redirect(tokens[m.next], cmd, tilde_spec(file, lookup(env, "HOME"@))),
                );
            },
            _ => {},
        }
    }
}

/// A stage stays as it is when more answers follow.
pub proof fn lemma_stage_stable(
    tokens: Seq<TokenView>,
    env: Seq<(Seq<char>, Seq<char>)>,
    ans: AnswersView,
    outputs: Seq<Option<Seq<char>>>,
    matches: Seq<Seq<Seq<char>>>,
    m: Mark,
)
    requires
        ans.covers(m),
        decided(redirect_spec(tokens, env, ans, m)),
    ensures
        redirect_spec(tokens, env, ans.with(outputs, matches), m) == redirect_spec(
            tokens,
            env,
            ans,
            m,
        ),
        redirect_spec(tokens, env, ans, m) matches Ok((_, after)) ==> ans.covers(after),
{
    lemma_simple_stable(tokens, env, ans, outputs, matches, m, Seq::empty());
    match simple_spec(tokens, env, ans, m) {
        Ok((cmd, after)) => {
            lemma_redirect_keeps_counts(tokens, env, after, cmd);
        },
        Err(_) => {},
    }
}

/// The rest of a pipeline stays as it is when more answers follow.
pub proof fn lemma_pipe_rest_stable(
    tokens: Seq<TokenView>,
    env: Seq<(Seq<char>, Seq<char>)>,
    ans: AnswersView,
    outputs: Seq<Option<Seq<char>>>,
    matches: Seq<Seq<Seq<char>>>,
    m: Mark,
    left: TreeView,
)
    requires
        0 <= m.next <= tokens.len(),
        ans.covers(m),
        decided(pipe_rest(tokens, env, ans, m, left)),
    ensures
        pipe_rest(tokens, env, ans.with(outputs, matches), m, left) == pipe_rest(
            tokens,
            env,
            ans,
            m,
            left,
        ),
        pipe_rest(tokens, env, ans, m, left) matches Ok((_, after)) ==> ans.covers(after),
    decreases tokens.len() - m.next,
{
    if m.next < tokens.len() && tokens[m.next] is Pipe && m.next + 1 < tokens.len() {
        lemma_redirect_spec(tokens, env, ans, m.step());
        lemma_stage_stable(tokens, env, ans, outputs, matches, m.step());
        match redirect_spec(tokens, env, ans, m.step()) {
            Ok((right, after)) => {
                lemma_pipe_rest_stable(
                    tokens,
                    env,
                    ans,
                    outputs,
                    matches,
                    after,
                    TreeView::Pipe { left: Box::new(left), right: Box::new(right) },
                );
            },
            Err(_) => {},
        }
    }
}

/// A pipeline stays as it is when more answers follow.
pub proof fn lemma_pipe_stable(
    tokens: Seq<TokenView>,
    env: Seq<(Seq<char>, Seq<char>)>,
    ans: AnswersView,
    outputs: Seq<Option<Seq<char>>>,
    matches: Seq<Seq<Seq<char>>>,
    m: Mark,
)
    requires
        0 <= m.next <= tokens.len(),
        ans.covers(m),
        decided(pipe_spec(tokens, env, ans, m)),
    ensures
        pipe_spec(tokens, env, ans.with(outputs, matches), m) == pipe_spec(tokens, env, ans, m),
        pipe_spec(tokens, env, ans, m) matches Ok((_, after)) ==> ans.covers(after),
{
    lemma_redirect_spec(tokens, env, ans, m);
    lemma_stage_stable(tokens, env, ans, outputs, matches, m);
    match redirect_spec(tokens, env, ans, m) {
        Ok((first, after)) => {
            lemma_pipe_rest_stable(tokens, env, ans, outputs, matches, after, first);
        },
        Err(_) => {},
    }
}

/// The rest of a chain stays as it is when more answers follow.
pub proof fn lemma_chain_rest_stable(
    tokens: Seq<TokenView>,
    env: Seq<(Seq<char>, Seq<char>)>,
    ans: AnswersView,
    outputs: Seq<Option<Seq<char>>>,
    matches: Seq<Seq<Seq<char>>>,
    m: Mark,
    left: TreeView,
)
    requires
        0 <= m.next <= tokens.len(),
        ans.covers(m),
        decided(chain_rest(tokens, env, ans, m, left)),
    ensures
        chain_rest(tokens, env, ans.with(outputs, matches), m, left) == chain_rest(
            tokens,
            env,
            ans,
            m,
            left,
        ),
    decreases tokens.len() - m.next,
{
    if m.next < tokens.len() && is_chain_operator(tokens[m.next]) && m.next + 1 < tokens.len() {
        lemma_pipe_spec(tokens, env, ans, m.step());
        lemma_pipe_stable(tokens, env, ans, outputs, matches, m.step());
        match pipe_spec(tokens, env, ans, m.step()) {
            Ok((right, after)) => {
                lemma_chain_rest_stable(
                    tokens,
                    env,
                    ans,
                    outputs,
                    matches,
                    after,
                    TreeView::Chain {
                        left: Box::new(left),
                        right: Box::new(right),
                        and: tokens[m.next] is And,
                    },
                );
            },
            Err(_) => {},
        }
    }
}

/// Answers only ever add: once a line has a tree, or an error, it keeps it
/// whatever answers follow on the record.
pub proof fn lemma_parse_stable(
    input: Seq<char>,
    env: Seq<(Seq<char>, Seq<char>)>,
    ans: AnswersView,
    outputs: Seq<Option<Seq<char>>>,
    matches: Seq<Seq<Seq<char>>>,
)
    requires
        decided(parse_spec(input, env, ans)),
    ensures
        parse_spec(input, env, ans.with(outputs, matches)) == parse_spec(input, env, ans),
{
    let tokens = tokenize_spec(input);
    lemma_pipe_spec(tokens, env, ans, Mark::start());
    lemma_pipe_stable(tokens, env, ans, outputs, matches, Mark::start());
    match pipe_spec(tokens, env, ans, Mark::start()) {
        Ok((first, after)) => {
            lemma_chain_rest_stable(tokens, env, ans, outputs, matches, after, first);
        },
        Err(_) => {},
    }
}

/// The value of the outcome of a parsing step.
pub open spec fn step_view(r: Result<(CommandPart, Cursor), Halt>) -> Parsed {
    match r {
        Ok((tree, cursor)) => Ok((tree@, cursor@)),
        Err(halt) => Err(halt@),
    }
}

/// The value of the outcome of a parse.
pub open spec fn tree_view(r: Result<CommandPart, Halt>) -> Result<TreeView, HaltView> {
    match r {
        Ok(tree) => Ok(tree@),
        Err(halt) => Err(halt@),
    }
}

/// The halt for a malformed line.
fn halt(message: &str) -> (h: Halt)
    ensures
        h@ == malformed(message@),
{
    Halt::Error(ShellError::other(message))
}

/// Ends a simple command: one without arguments is an error.
fn finish(argv: Vec<String>, background: bool, cursor: Cursor) -> (r: Result<
    (CommandPart, Cursor),
    Halt,
>)
    ensures
        step_view(r) == finish_simple(texts(argv@), background, cursor@),
{
    if argv.len() == 0 {
        assert(texts(argv@).len() == 0);
        Err(halt("empty command"))
    } else {
        assert(texts(argv@).len() > 0);
        Ok((CommandPart::Simple { argv, background }, cursor))
    }
}

/// Moves the strings of `entries` to the end of `argv`.
fn extend(argv: &mut Vec<String>, entries: Vec<String>)
    ensures
        texts(final(argv)@) == texts(old(argv)@) + texts(entries@),
{
    let mut entries = entries;
    let ghost added = texts(entries@);
    assert(added.skip(0) =~= added);
    assert(texts(argv@) + added.take(0) =~= texts(argv@));
    let mut i: usize = 0;
    let n = entries.len();
    while i < n
        invariant
            i <= n,
            n == entries.len(),
            texts(entries@).len() == added.len(),
            forall|j: int| i <= j < n ==> entries@[j]@ == added[j],
            texts(argv@) == texts(old(argv)@) + added.take(i as int),
        decreases n - i,
    {
        let mut moved = String::new();
        let ghost before = entries@;
        entries.set_and_swap(i, &mut moved);
        assert(moved@ == added[i as int]);
        assert(forall|j: int| i < j < n ==> entries@[j] == before[j]);
        proof {
            assert(texts(argv@.push(moved)) =~= texts(argv@).push(moved@));
            assert(texts(old(argv)@) + added.take(i + 1) =~= (texts(old(argv)@) + added.take(
                i as int,
            )).push(added[i as int]));
        }
        argv.push(moved);
        i += 1;
    }
    assert(added.take(n as int) =~= added);
}

/// Parses one simple command from `start` on.
///
/// Each word is expanded and adds its entries to the arguments; `&` ends the
/// command and marks it as a background command; any other token ends it and
/// is left for the caller. A command without arguments is the error
/// "empty command".
pub fn parse_simple(tokens: &Vec<Token>, env: &Environment, answers: &Answers, start: Cursor) -> (r:
    Result<(CommandPart, Cursor), Halt>)
    ensures
        step_view(r) == simple_spec(token_views(tokens@), env@, answers@, start@),
{
    let mut argv: Vec<String> = Vec::new();
    let mut cursor = start;
    let ghost tv = token_views(tokens@);
    assert(texts(argv@) =~= Seq::<Seq<char>>::empty());
    while cursor.next < tokens.len()
        invariant
            tv == token_views(tokens@),
            simple_spec(tv, env@, answers@, start@) == simple_from(
                tv,
                env@,
                answers@,
                cursor@,
                texts(argv@),
            ),
        decreases tokens.len() - cursor.next,
    {
        assert(tv[cursor.next as int] == tokens@[cursor.next as int]@);
        match &tokens[cursor.next] {
            Token::Word(word) => {
                match expand_word_with_subst(
                    word.as_str(),
                    env,
                    &answers.outputs,
                    cursor.outputs,
                ) {
                    Expansion::Need { command } => {
                        return Err(Halt::NeedSubstitution(command));
                    },
                    Expansion::Failed => {
                        return Err(halt("command substitution failed"));
                    },
                    Expansion::Done { text, used } => {
                        if is_glob_pattern(text.as_str()) {
                            if cursor.globs >= answers.matches.len() {
                                return Err(Halt::NeedGlob(text));
                            }
                            assert(answers@.matches[cursor.globs as int] == texts(
                                answers.matches@[cursor.globs as int]@,
                            ));
                            let entries = argv_entries(text, &answers.matches[cursor.globs]);
                            extend(&mut argv, entries);
                            cursor = Cursor {
                                next: cursor.next + 1,
                                outputs: used,
                                globs: cursor.globs + 1,
                            };
                        } else {
                            proof {
                                assert(texts(argv@.push(text)) =~= texts(argv@) + seq![text@]);
                            }
                            argv.push(text);
                            cursor = Cursor {
                                next: cursor.next + 1,
                                outputs: used,
                                globs: cursor.globs,
                            };
                        }
                    },
                }
            },
            Token::Background => {
                return finish(
                    argv,
                    true,
                    Cursor { next: cursor.next + 1, outputs: cursor.outputs, globs: cursor.globs },
                );
            },
            _ => {
                return finish(argv, false, cursor);
            },
        }
    }
    finish(argv, false, cursor)
}

/// Parses one pipeline stage from `start` on: a simple command, then every
/// redirection that follows it. Each redirection wraps what was parsed so far,
/// so the last one is outermost. Of a file name only the tilde is expanded.
///
/// An operator that is not followed by a word is an error whose message names
/// the operator.
pub fn parse_redirect(tokens: &Vec<Token>, env: &Environment, answers: &Answers, start: Cursor) -> (r:
    Result<(CommandPart, Cursor), Halt>)
    ensures
        step_view(r) == redirect_spec(token_views(tokens@), env@, answers@, start@),
{
    let ghost tv = token_views(tokens@);
    let (first, after) = match parse_simple(tokens, env, answers, start) {
        Err(h) => {
            return Err(h);
        },
        Ok(pair) => pair,
    };
    let mut cmd = first;
    let mut cursor = after;
    while cursor.next < tokens.len()
        invariant
            tv == token_views(tokens@),
            redirect_spec(tv, env@, answers@, start@) == redirect_rest(tv, env@, cursor@, cmd@),
        decreases tokens.len() - cursor.next,
    {
        let at = cursor.next;
        assert(tv[at as int] == tokens@[at as int]@);
        let (missing, expected, out, append) = match &tokens[at] {
            Token::RedirectOut => (
                "redirect output: missing filename",
                "redirect output: expected filename",
                true,
                false,
            ),
            Token::RedirectAppend => (
                "redirect append: missing filename",
                "redirect append: expected filename",
                true,
                true,
            ),
            Token::RedirectIn => (
                "redirect input: missing filename",
                "redirect input: expected filename",
                false,
                false,
            ),
            _ => {
                return Ok((cmd, cursor));
            },
        };
        if at + 1 >= tokens.len() {
            return Err(halt(missing));
        }
        assert(tv[at + 1] == tokens@[at + 1]@);
        match &tokens[at + 1] {
            Token::Word(name) => {
                let file = expand_tilde(name.as_str(), env);
                cmd = if out {
                    CommandPart::RedirectOut { cmd: Box::new(cmd), file, append }
                } else {
                    CommandPart::RedirectIn { cmd: Box::new(cmd), file }
                };
                cursor = Cursor { next: at + 2, outputs: cursor.outputs, globs: cursor.globs };
            },
            _ => {
                return Err(halt(expected));
            },
        }
    }
    Ok((cmd, cursor))
}

/// Parses one pipeline from `start` on: stages joined by `|`, folded to the
/// left, so that `a | b | c` is the pipe of `a | b` into `c`.
pub fn parse_pipe(tokens: &Vec<Token>, env: &Environment, answers: &Answers, start: Cursor) -> (r:
    Result<(CommandPart, Cursor), Halt>)
    ensures
        step_view(r) == pipe_spec(token_views(tokens@), env@, answers@, start@),
{
    let ghost tv = token_views(tokens@);
    let (first, after) = match parse_redirect(tokens, env, answers, start) {
        Err(h) => {
            return Err(h);
        },
        Ok(pair) => pair,
    };
    let mut left = first;
    let mut cursor = after;
    while cursor.next < tokens.len()
        invariant
            tv == token_views(tokens@),
            pipe_spec(tv, env@, answers@, start@) == pipe_rest(tv, env@, answers@, cursor@, left@),
        decreases tokens.len() - cursor.next,
    {
        let at = cursor.next;
        assert(tv[at as int] == tokens@[at as int]@);
        match &tokens[at] {
            Token::Pipe => {},
            _ => {
                return Ok((left, cursor));
            },
        }
        let stage = Cursor { next: at + 1, outputs: cursor.outputs, globs: cursor.globs };
        if at + 1 >= tokens.len() {
            return Ok((left, stage));
        }
        proof {
            lemma_redirect_spec(tv, env@, answers@, stage@);
        }
        match parse_redirect(tokens, env, answers, stage) {
            Err(h) => {
                return Err(h);
            },
            Ok((right, after)) => {
                left = CommandPart::Pipe { left: Box::new(left), right: Box::new(right) };
                cursor = after;
            },
        }
    }
    Ok((left, cursor))
}

/// Parses a whole token sequence: pipelines joined by `&&` and `||`, folded
/// to the left in the order written, with no precedence between the two
/// operators. Tokens after the point where the chain ends are dropped.
pub fn parse_chain(tokens: &Vec<Token>, env: &Environment, answers: &Answers) -> (r: Result<
    CommandPart,
    Halt,
>)
    ensures
        tree_view(r) == chain_spec(token_views(tokens@), env@, answers@),
        r matches Ok(tree) ==> tree@.well_formed(),
        r matches Err(Halt::NeedGlob(_)) ==> answers.matches.len() < tokens.len(),
{
    let ghost tv = token_views(tokens@);
    proof {
        lemma_chain_spec(tv, env@, answers@);
    }
    let start = Cursor { next: 0, outputs: 0, globs: 0 };
    let (first, after) = match parse_pipe(tokens, env, answers, start) {
        Err(h) => {
            return Err(h);
        },
        Ok(pair) => pair,
    };
    let mut left = first;
    let mut cursor = after;
    while cursor.next < tokens.len()
        invariant
            tv == token_views(tokens@),
            chain_spec(tv, env@, answers@) matches Ok(tree) ==> tree.well_formed(),
            chain_spec(tv, env@, answers@) matches Err(HaltView::NeedGlob(_))
                ==> answers.matches.len() < tokens.len(),
            chain_spec(tv, env@, answers@) == (match chain_rest(
                tv,
                env@,
                answers@,
                cursor@,
                left@,
            ) {
                Err(halt) => Err(halt),
                Ok((tree, _)) => Ok(tree),
            }),
        decreases tokens.len() - cursor.next,
    {
        let at = cursor.next;
        assert(tv[at as int] == tokens@[at as int]@);
        let and = match &tokens[at] {
            Token::And => true,
            Token::Or => false,
            _ => {
                return Ok(left);
            },
        };
        if at + 1 >= tokens.len() {
            return Ok(left);
        }
        let stage = Cursor { next: at + 1, outputs: cursor.outputs, globs: cursor.globs };
        proof {
            lemma_pipe_spec(tv, env@, answers@, stage@);
        }
        match parse_pipe(tokens, env, answers, stage) {
            Err(h) => {
                return Err(h);
            },
            Ok((right, after)) => {
                left = CommandPart::Chain { left: Box::new(left), right: Box::new(right), and };
                cursor = after;
            },
        }
    }
    Ok(left)
}

/// Parses a token sequence into a command tree. A sequence without tokens is
/// the error "empty command".
pub fn parse_tokens(tokens: &Vec<Token>, env: &Environment, answers: &Answers) -> (r: Result<
    CommandPart,
    Halt,
>)
    ensures
        tree_view(r) == chain_spec(token_views(tokens@), env@, answers@),
        r matches Ok(tree) ==> tree@.well_formed(),
        r matches Err(Halt::NeedGlob(_)) ==> answers.matches.len() < tokens.len(),
        tokens.len() == 0 ==> tree_view(r) == Err::<TreeView, HaltView>(
            malformed("empty command"@),
        ),
{
    if tokens.len() == 0 {
        return Err(halt("empty command"));
    }
    parse_chain(tokens, env, answers)
}

/// Parses a line into a command tree.
///
/// The line is split into tokens and parsed with the answers on record. Where
/// the parse needs the matches of a glob pattern that are not on record, the
/// filesystem is asked and the matches are added to the record. Where it
/// needs the output of a substituted command, it halts with the command: the
/// caller runs it, adds the output to `answers.outputs` and calls again with
/// the same record.
///
/// The result is the parse of the line under the record as it stands when the
/// call returns. The outputs on record are left alone, and match lists are
/// only added at the end, each in the order of strings.
pub fn parse_command_line(input: &str, env: &Environment, answers: &mut Answers) -> (r: Result<
    CommandPart,
    Halt,
>)
    ensures
        tree_view(r) == parse_spec(input@, env@, final(answers)@),
        r matches Ok(tree) ==> tree@.well_formed(),
        !(r matches Err(Halt::NeedGlob(_))),
        final(answers)@.outputs == old(answers)@.outputs,
        old(answers)@.matches.len() <= final(answers)@.matches.len(),
        final(answers)@.matches.take(old(answers)@.matches.len() as int) == old(answers)@.matches,
        forall|i: int|
            old(answers)@.matches.len() <= i < final(answers)@.matches.len() ==> ordered(
                #[trigger] final(answers)@.matches[i],
            ),
{
    let tokens = match tokenize(input) {
        Ok(tokens) => tokens,
        Err(e) => {
            return Err(Halt::Error(e));
        },
    };
    assert(answers@.matches.take(answers@.matches.len() as int) =~= answers@.matches);
    loop
        invariant
            token_views(tokens@) == tokenize_spec(input@),
            answers@.outputs == old(answers)@.outputs,
            old(answers)@.matches.len() <= answers@.matches.len(),
            answers@.matches.take(old(answers)@.matches.len() as int) == old(answers)@.matches,
            forall|i: int|
                old(answers)@.matches.len() <= i < answers@.matches.len() ==> ordered(
                    #[trigger] answers@.matches[i],
                ),
        decreases tokens.len() - answers.matches.len(),
    {
        match parse_tokens(&tokens, env, answers) {
            Err(Halt::NeedGlob(pattern)) => {
                let found = expand_glob(pattern.as_str());
                let ghost before = answers@.matches;
                answers.matches.push(found);
                assert(answers@.matches =~= before.push(texts(found@)));
                assert(answers@.matches.take(old(answers)@.matches.len() as int) =~= before.take(
                    old(answers)@.matches.len() as int,
                ));
            },
            other => {
                return other;
            },
        }
    }
}

} // verus!
