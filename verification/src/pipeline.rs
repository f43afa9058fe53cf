//! The driver of a run: fetch, persist, extract, in that order and each at
//! most once.
//!
//! The driver does no input or output itself. It is handed what happened
//! outside, one event at a time, and answers with the one thing to do next.

use vstd::prelude::*;
use crate::args::Arguments;
use crate::error::ScrapeError;
use crate::spider::{
    disk_after,
    extraction,
    fetch_outcome,
    lemma_last_write_stays,
    loaded_text,
    write_plan,
    writes,
    FetchReply,
    Spider,
    WriteOp,
};
use crate::store::texts;

verus! {

/// How far a run has come.
#[derive(Clone, Copy, Debug, PartialEq, Eq, Structural)]
pub enum Stage {
    /// Nothing was asked for yet.
    Idle,
    /// The acquisition is under way: the fetch was asked for, or what it
    /// brought is being persisted.
    Fetching,
    /// All that was fetched is persisted; it is being read back.
    Persisted,
    /// The matches were handed out. Final.
    Extracted,
    /// The run was abandoned. Final.
    Failed,
}

/// What happened outside the driver.
#[derive(Clone, Debug)]
pub enum Event {
    /// The run is to begin.
    Start,
    /// The transport answered the fetch.
    Fetched(FetchReply),
    /// The write that was asked for went through, or did not.
    Written(bool),
    /// The persisted file was read back as text, or could not be.
    Loaded(Option<String>),
}

/// What the driver wants done next.
#[derive(Clone, Debug)]
pub enum Command {
    /// Retrieve the resource at `location` and report `Event::Fetched`.
    Fetch { location: String },
    /// Make this write and report `Event::Written`.
    Write(WriteOp),
    /// Read the whole file at `path` as text and report `Event::Loaded`.
    Read { path: String },
    /// The run is over: these are the matches.
    Report { matches: Vec<String> },
    /// The run is over: it failed.
    Abort { error: ScrapeError },
}

/// A command, with texts in place of strings.
pub enum CommandView {
    Fetch { location: Seq<char> },
    Write { path: Seq<char>, content: Seq<char> },
    Read { path: Seq<char> },
    Report { matches: Seq<Seq<char>> },
    Abort { error: ScrapeError },
}

impl View for Command {
    type V = CommandView;

    open spec fn view(&self) -> CommandView {
        match *self {
            Command::Fetch { location } => CommandView::Fetch { location: location@ },
            Command::Write(op) => CommandView::Write { path: op.path@, content: op.content@ },
            Command::Read { path } => CommandView::Read { path: path@ },
            Command::Report { matches } => CommandView::Report { matches: texts(matches@) },
            Command::Abort { error } => CommandView::Abort { error },
        }
    }
}

/// The state of a run.
pub struct PipelineView {
    pub stage: Stage,
    /// The name of the acquisition identity.
    pub name: Seq<char>,
    pub location: Seq<char>,
    pub path: Seq<char>,
    pub pattern: Seq<char>,
    /// The writes that are still to be confirmed, the first of them asked for.
    pub pending: Seq<(Seq<char>, Seq<char>)>,
}

impl PipelineView {
    /// Writes are pending only while the acquisition is under way, and all of
    /// them go to the path of the run.
    pub open spec fn wf(self) -> bool {
        &&& self.stage != Stage::Fetching ==> self.pending.len() == 0
        &&& forall|i: int| 0 <= i < self.pending.len() ==> (#[trigger] self.pending[i]).0 == self.path
    }
}

/// The run is abandoned with `error`.
pub open spec fn fail(pre: PipelineView, error: ScrapeError) -> (PipelineView, CommandView) {
    (
        PipelineView { stage: Stage::Failed, pending: Seq::empty(), ..pre },
        CommandView::Abort { error },
    )
}

/// The acquisition goes on with the writes that `remaining` holds: the first
/// of them is asked for, or, when none is left, the file is read back.
pub open spec fn proceed(pre: PipelineView, remaining: Seq<(Seq<char>, Seq<char>)>) -> (
    PipelineView,
    CommandView,
) {
    if remaining.len() > 0 {
        (
            PipelineView { stage: Stage::Fetching, pending: remaining, ..pre },
            CommandView::Write { path: remaining[0].0, content: remaining[0].1 },
        )
    } else {
        (
            PipelineView { stage: Stage::Persisted, pending: Seq::empty(), ..pre },
            CommandView::Read { path: pre.path },
        )
    }
}

/// The state and the command that follow when `event` arrives in state
/// `pre`, or nothing if the event does not belong there.
pub open spec fn next(pre: PipelineView, event: Event) -> Option<(PipelineView, CommandView)> {
    match event {
        Event::Start => if pre.stage == Stage::Idle {
            Some(
                (
                    PipelineView { stage: Stage::Fetching, pending: Seq::empty(), ..pre },
                    CommandView::Fetch { location: pre.location },
                ),
            )
        } else {
            None
        },
        Event::Fetched(reply) => if pre.stage == Stage::Fetching && pre.pending.len() == 0 {
            match fetch_outcome(reply) {
                Ok(body) => Some(proceed(pre, write_plan(pre.path, seq![body]))),
                Err(error) => Some(fail(pre, error)),
            }
        } else {
            None
        },
        Event::Written(done) => if pre.stage == Stage::Fetching && pre.pending.len() > 0 {
            if done {
                Some(proceed(pre, pre.pending.drop_first()))
            } else {
                Some(fail(pre, ScrapeError::Io))
            }
        } else {
            None
        },
        Event::Loaded(loaded) => if pre.stage == Stage::Persisted {
            match extraction(loaded_text(loaded), pre.pattern) {
                Ok(matches) => Some(
                    (
                        PipelineView { stage: Stage::Extracted, pending: Seq::empty(), ..pre },
                        CommandView::Report { matches },
                    ),
                ),
                Err(error) => Some(fail(pre, error)),
            }
        } else {
            None
        },
    }
}

/// How far a stage is from the start of a run.
pub open spec fn rank(stage: Stage) -> nat {
    match stage {
        Stage::Idle => 0,
        Stage::Fetching => 1,
        Stage::Persisted => 2,
        Stage::Extracted => 3,
        Stage::Failed => 3,
    }
}

/// A run never goes back and never changes what it works on. The fetch is
/// asked for only when the run begins, the file is read back only when the
/// last write went through, and matches are handed out only for what was
/// read back.
pub proof fn lemma_no_way_back(pre: PipelineView, event: Event)
    requires
        pre.wf(),
        next(pre, event) is Some,
    ensures
        ({
            let (post, command) = next(pre, event)->0;
            &&& post.wf()
            &&& rank(pre.stage) <= rank(post.stage)
            &&& post.name == pre.name
            &&& post.location == pre.location
            &&& post.path == pre.path
            &&& post.pattern == pre.pattern
            &&& command is Fetch ==> pre.stage == Stage::Idle && post.stage == Stage::Fetching
            &&& command matches CommandView::Write { path, .. } ==> post.stage == Stage::Fetching
                && path == pre.path
            &&& command is Read ==> pre.stage == Stage::Fetching && post.stage
                == Stage::Persisted
            &&& command is Report <==> post.stage == Stage::Extracted
            &&& command is Abort <==> post.stage == Stage::Failed
            &&& post.stage == Stage::Extracted ==> pre.stage == Stage::Persisted
        }),
{
    match event {
        Event::Fetched(reply) => {
            if let Ok(body) = fetch_outcome(reply) {
                let plan = write_plan(pre.path, seq![body]);
                assert(plan.len() == 1 && plan[0] == (pre.path, body));
            }
        },
        Event::Written(done) => {
            if done && pre.pending.len() > 1 {
                let remaining = pre.pending.drop_first();
                assert(forall|i: int|
                    0 <= i < remaining.len() ==> #[trigger] remaining[i] == pre.pending[i + 1]);
            }
        },
        _ => {},
    }
}

/// What was fetched is persisted as it came: a body that arrives is written
/// to the path of the run, whole and once, and when that write went through
/// the file is read back.
pub proof fn lemma_body_is_written_then_read_back(
    pre: PipelineView,
    body: String,
    disk: Map<Seq<char>, Seq<char>>,
)
    requires
        pre.stage == Stage::Fetching,
        pre.pending.len() == 0,
    ensures
        ({
            let (writing, first) = next(pre, Event::Fetched(FetchReply::Body(body)))->0;
            let (reading, second) = next(writing, Event::Written(true))->0;
            &&& next(pre, Event::Fetched(FetchReply::Body(body))) is Some
            &&& first == (CommandView::Write { path: pre.path, content: body@ })
            &&& writing.stage == Stage::Fetching
            &&& next(writing, Event::Written(true)) is Some
            &&& second == (CommandView::Read { path: pre.path })
            &&& reading.stage == Stage::Persisted
            &&& disk_after(disk, writing.pending) == disk.insert(pre.path, body@)
        }),
{
    let plan = write_plan(pre.path, seq![body@]);
    assert(plan.len() == 1 && plan[0] == (pre.path, body@));
    lemma_last_write_stays(disk, pre.path, seq![body@]);
}

/// A run that has handed out its matches or has failed is over: whatever
/// happens then is refused, so nothing more is asked for.
pub proof fn lemma_final_stages_refuse(pre: PipelineView, event: Event)
    requires
        pre.stage == Stage::Extracted || pre.stage == Stage::Failed,
    ensures
        next(pre, event) is None,
{
}

/// A failure is final at once: a fetch that brings no body, a write that does
/// not go through, a file that cannot be read back or a pattern that does
/// not compile abandons the run with the matching error, and drops the writes
/// that were still pending.
pub proof fn lemma_failures_abandon(pre: PipelineView, event: Event)
    requires
        next(pre, event) is Some,
    ensures
        ({
            let (post, command) = next(pre, event)->0;
            let failure = match event {
                Event::Start => None,
                Event::Fetched(reply) => match fetch_outcome(reply) {
                    Ok(_) => None,
                    Err(error) => Some(error),
                },
                Event::Written(done) => if done {
                    None
                } else {
                    Some(ScrapeError::Io)
                },
                Event::Loaded(loaded) => match extraction(loaded_text(loaded), pre.pattern) {
                    Ok(_) => None,
                    Err(error) => Some(error),
                },
            };
            match failure {
                Some(error) => post.stage == Stage::Failed && post.pending.len() == 0 && command
                    == (CommandView::Abort { error }),
                None => post.stage != Stage::Failed,
            }
        }),
{
    match event {
        Event::Fetched(reply) => {
            if let Ok(body) = fetch_outcome(reply) {
                assert(write_plan(pre.path, seq![body]).len() == 1);
            }
        },
        _ => {},
    }
}

/// The driver of one run.
#[derive(Clone, Debug)]
pub struct Pipeline {
    args: Arguments,
    stage: Stage,
    pending: Vec<WriteOp>,
}

impl View for Pipeline {
    type V = PipelineView;

    closed spec fn view(&self) -> PipelineView {
        PipelineView {
            stage: self.stage,
            name: self.args.name@,
            location: self.args.url@,
            path: self.args.filename@,
            pattern: self.args.pattern@,
            pending: writes(self.pending@),
        }
    }
}

impl Pipeline {
    /// A run on `args` that has not begun.
    pub fn new(args: Arguments) -> (pipeline: Pipeline)
        ensures
            pipeline@ == (PipelineView {
                stage: Stage::Idle,
                name: args.name@,
                location: args.url@,
                path: args.filename@,
                pattern: args.pattern@,
                pending: Seq::empty(),
            }),
            pipeline@.wf(),
    {
        let pipeline = Pipeline { args, stage: Stage::Idle, pending: Vec::new() };
        assert(writes(pipeline.pending@) =~= Seq::empty());
        pipeline
    }

    /// How far the run has come.
    pub fn stage(&self) -> (stage: Stage)
        ensures
            stage == self@.stage,
    {
        self.stage
    }

    /// Abandons the run.
    fn fail(&mut self, error: ScrapeError) -> (command: Command)
        ensures
            (final(self)@, command@) == fail(old(self)@, error),
    {
        self.stage = Stage::Failed;
        self.pending = Vec::new();
        assert(writes(self.pending@) =~= Seq::empty());
        Command::Abort { error }
    }

    /// Asks for the first write that is pending, or, when none is, for the
    /// file to be read back.
    fn proceed(&mut self) -> (command: Command)
        ensures
            (final(self)@, command@) == proceed(old(self)@, old(self)@.pending),
    {
        if self.pending.len() > 0 {
            self.stage = Stage::Fetching;
            let op = &self.pending[0];
            assert(writes(self.pending@)[0] == op@);
            Command::Write(WriteOp { path: op.path.clone(), content: op.content.clone() })
        } else {
            self.stage = Stage::Persisted;
            assert(writes(self.pending@) =~= Seq::empty());
            Command::Read { path: self.args.filename.clone() }
        }
    }

    /// Takes the run one step further: given what happened outside, says what
    /// to do next. An event that does not belong to the stage that the run is
    /// in is refused, and the run stays as it was.
    pub fn step(&mut self, event: Event) -> (command: Option<Command>)
        ensures
            match next(old(self)@, event) {
                Some((post, wanted)) => {
                    &&& final(self)@ == post
                    &&& command matches Some(c)
                    &&& c@ == wanted
                },
                None => final(self)@ == old(self)@ && command is None,
            },
            old(self)@.wf() ==> final(self)@.wf(),
    {
        proof {
            if old(self)@.wf() && next(old(self)@, event) is Some {
                lemma_no_way_back(old(self)@, event);
            }
        }
        match event {
            Event::Start => {
                if self.stage == Stage::Idle {
                    self.stage = Stage::Fetching;
                    self.pending = Vec::new();
                    assert(writes(self.pending@) =~= Seq::empty());
                    Some(Command::Fetch { location: self.args.url.clone() })
                } else {
                    None
                }
            },
            Event::Fetched(reply) => {
                if self.stage == Stage::Fetching && self.pending.len() == 0 {
                    let acquirer = Spider::new(self.args.name.clone());
                    match acquirer.start_requests(reply) {
                        Ok(store) => {
                            let persister = Spider::new(self.args.name.clone());
                            self.pending = persister.save_response(
                                self.args.filename.clone(),
                                &store,
                            );
                            Some(self.proceed())
                        },
                        Err(error) => Some(self.fail(error)),
                    }
                } else {
                    None
                }
            },
            Event::Written(done) => {
                if self.stage == Stage::Fetching && self.pending.len() > 0 {
                    if done {
                        self.pending.remove(0);
                        assert(writes(self.pending@) =~= old(self)@.pending.drop_first());
                        Some(self.proceed())
                    } else {
                        Some(self.fail(ScrapeError::Io))
                    }
                } else {
                    None
                }
            },
            Event::Loaded(loaded) => {
                if self.stage == Stage::Persisted {
                    let parser = Spider::new("Parse-Spider".to_owned());
                    match parser.parse(loaded, self.args.pattern.as_str()) {
                        Ok(matches) => {
                            self.stage = Stage::Extracted;
                            self.pending = Vec::new();
                            assert(writes(self.pending@) =~= Seq::empty());
                            Some(Command::Report { matches })
                        },
                        Err(error) => Some(self.fail(error)),
                    }
                } else {
                    None
                }
            },
        }
    }
}

} // verus!
