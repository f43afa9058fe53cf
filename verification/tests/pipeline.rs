use std::collections::HashMap;
use web_scraper::args::Arguments;
use web_scraper::error::ScrapeError;
use web_scraper::pipeline::{Command, Event, Pipeline, Stage};
use web_scraper::spider::FetchReply;

fn s(text: &str) -> String {
    String::from(text)
}

fn run_on(filename: &str, pattern: &str) -> Arguments {
    Arguments {
        name: s("example-spider"),
        url: s("https://example.com"),
        filename: s(filename),
        pattern: s(pattern),
    }
}

/// A stand-in for the world outside: one resource to fetch and a disk on
/// which only the directories listed exist.
struct World {
    reply: FetchReply,
    directories: Vec<String>,
    disk: HashMap<String, String>,
    fetches: usize,
    writes: usize,
    reads: usize,
}

impl World {
    fn new(reply: FetchReply) -> World {
        World {
            reply,
            directories: vec![s("")],
            disk: HashMap::new(),
            fetches: 0,
            writes: 0,
            reads: 0,
        }
    }

    fn parent(path: &str) -> String {
        match path.rfind('/') {
            Some(at) => s(&path[..at]),
            None => s(""),
        }
    }

    /// Drives the pipeline to its end and returns the last command.
    fn drive(&mut self, pipeline: &mut Pipeline) -> Command {
        let mut event = Event::Start;
        loop {
            let command = pipeline.step(event).expect("the event answers the last command");
            event = match command {
                Command::Fetch { location } => {
                    assert_eq!(location, "https://example.com");
                    self.fetches += 1;
                    Event::Fetched(self.reply.clone())
                }
                Command::Write(op) => {
                    self.writes += 1;
                    if self.directories.contains(&World::parent(&op.path)) {
                        self.disk.insert(op.path, op.content);
                        Event::Written(true)
                    } else {
                        Event::Written(false)
                    }
                }
                Command::Read { path } => {
                    self.reads += 1;
                    Event::Loaded(self.disk.get(&path).cloned())
                }
                last => return last,
            };
        }
    }
}

fn matches_of(command: Command) -> Vec<String> {
    match command {
        Command::Report { matches } => matches,
        other => panic!("no matches were handed out: {:?}", other),
    }
}

fn error_of(command: Command) -> ScrapeError {
    match command {
        Command::Abort { error } => error,
        other => panic!("the run did not fail: {:?}", other),
    }
}

#[test]
fn a_run_fetches_persists_and_extracts() {
    let mut world = World::new(FetchReply::Body(s("<p>hello</p>")));
    let mut pipeline = Pipeline::new(run_on("out.html", "<p>.*?</p>"));
    assert_eq!(pipeline.stage(), Stage::Idle);
    let last = world.drive(&mut pipeline);
    assert_eq!(matches_of(last), vec![s("<p>hello</p>")]);
    assert_eq!(pipeline.stage(), Stage::Extracted);
    assert_eq!(world.disk.get("out.html"), Some(&s("<p>hello</p>")));
    assert_eq!((world.fetches, world.writes, world.reads), (1, 1, 1));
}

#[test]
fn a_run_on_an_empty_body_extracts_nothing() {
    let mut world = World::new(FetchReply::Body(s("")));
    let mut pipeline = Pipeline::new(run_on("out.html", ".*?</p>"));
    let last = world.drive(&mut pipeline);
    assert_eq!(matches_of(last), Vec::<String>::new());
    assert_eq!(pipeline.stage(), Stage::Extracted);
    assert_eq!(world.disk.get("out.html"), Some(&s("")));
}

#[test]
fn a_missing_parent_directory_fails_the_run_before_extraction() {
    let mut world = World::new(FetchReply::Body(s("<p>hello</p>")));
    let mut pipeline = Pipeline::new(run_on("missing/out.html", "<p>.*?</p>"));
    let last = world.drive(&mut pipeline);
    assert_eq!(error_of(last), ScrapeError::Io);
    assert_eq!(pipeline.stage(), Stage::Failed);
    assert_eq!((world.fetches, world.writes, world.reads), (1, 1, 0));
    assert!(world.disk.is_empty());
}

#[test]
fn a_malformed_pattern_fails_the_run_at_extraction() {
    let mut world = World::new(FetchReply::Body(s("<p>hello</p>")));
    let mut pipeline = Pipeline::new(run_on("out.html", "(<p>.*?</p>"));
    let last = world.drive(&mut pipeline);
    assert_eq!(error_of(last), ScrapeError::Pattern);
    assert_eq!(pipeline.stage(), Stage::Failed);
    assert_eq!(world.disk.get("out.html"), Some(&s("<p>hello</p>")));
    assert_eq!((world.fetches, world.writes, world.reads), (1, 1, 1));
}

#[test]
fn an_unreachable_resource_fails_the_run_before_persisting() {
    let mut world = World::new(FetchReply::Unreachable);
    let mut pipeline = Pipeline::new(run_on("out.html", "<p>.*?</p>"));
    let last = world.drive(&mut pipeline);
    assert_eq!(error_of(last), ScrapeError::Network);
    assert_eq!(pipeline.stage(), Stage::Failed);
    assert_eq!((world.fetches, world.writes, world.reads), (1, 0, 0));
}

#[test]
fn an_undecodable_body_fails_the_run_before_persisting() {
    let mut world = World::new(FetchReply::Undecodable);
    let mut pipeline = Pipeline::new(run_on("out.html", "<p>.*?</p>"));
    let last = world.drive(&mut pipeline);
    assert_eq!(error_of(last), ScrapeError::Decode);
    assert_eq!((world.fetches, world.writes, world.reads), (1, 0, 0));
}

#[test]
fn a_file_that_cannot_be_read_back_fails_the_run() {
    let mut pipeline = Pipeline::new(run_on("out.html", "<p>.*?</p>"));
    assert!(pipeline.step(Event::Start).is_some());
    assert!(pipeline.step(Event::Fetched(FetchReply::Body(s("<p>x</p>")))).is_some());
    assert!(pipeline.step(Event::Written(true)).is_some());
    assert_eq!(pipeline.stage(), Stage::Persisted);
    let last = pipeline.step(Event::Loaded(None)).expect("the file was asked for");
    assert_eq!(error_of(last), ScrapeError::FileRead);
    assert_eq!(pipeline.stage(), Stage::Failed);
}

#[test]
fn each_step_asks_for_the_next_thing() {
    let mut pipeline = Pipeline::new(run_on("out.html", "[0-9]+"));
    match pipeline.step(Event::Start) {
        Some(Command::Fetch { location }) => assert_eq!(location, "https://example.com"),
        other => panic!("{:?}", other),
    }
    assert_eq!(pipeline.stage(), Stage::Fetching);
    match pipeline.step(Event::Fetched(FetchReply::Body(s("a1b22")))) {
        Some(Command::Write(op)) => {
            assert_eq!(op.path, "out.html");
            assert_eq!(op.content, "a1b22");
        }
        other => panic!("{:?}", other),
    }
    assert_eq!(pipeline.stage(), Stage::Fetching);
    match pipeline.step(Event::Written(true)) {
        Some(Command::Read { path }) => assert_eq!(path, "out.html"),
        other => panic!("{:?}", other),
    }
    assert_eq!(pipeline.stage(), Stage::Persisted);
    match pipeline.step(Event::Loaded(Some(s("a1b22")))) {
        Some(Command::Report { matches }) => assert_eq!(matches, vec![s("1"), s("22")]),
        other => panic!("{:?}", other),
    }
    assert_eq!(pipeline.stage(), Stage::Extracted);
}

#[test]
fn extraction_sees_only_what_was_read_back() {
    let mut pipeline = Pipeline::new(run_on("out.html", "[0-9]+"));
    pipeline.step(Event::Start);
    pipeline.step(Event::Fetched(FetchReply::Body(s("fetched 1"))));
    pipeline.step(Event::Written(true));
    let last = pipeline.step(Event::Loaded(Some(s("on disk 22 333")))).unwrap();
    assert_eq!(matches_of(last), vec![s("22"), s("333")]);
}

#[test]
fn events_out_of_turn_are_refused() {
    let mut pipeline = Pipeline::new(run_on("out.html", "x"));
    assert!(pipeline.step(Event::Written(true)).is_none());
    assert!(pipeline.step(Event::Fetched(FetchReply::Body(s("x")))).is_none());
    assert!(pipeline.step(Event::Loaded(Some(s("x")))).is_none());
    assert_eq!(pipeline.stage(), Stage::Idle);
    assert!(pipeline.step(Event::Start).is_some());
    assert!(pipeline.step(Event::Start).is_none());
    assert!(pipeline.step(Event::Written(true)).is_none());
    assert!(pipeline.step(Event::Loaded(Some(s("x")))).is_none());
    assert_eq!(pipeline.stage(), Stage::Fetching);
    assert!(pipeline.step(Event::Fetched(FetchReply::Body(s("x")))).is_some());
    assert!(pipeline.step(Event::Fetched(FetchReply::Body(s("y")))).is_none());
    assert!(pipeline.step(Event::Loaded(Some(s("x")))).is_none());
    assert_eq!(pipeline.stage(), Stage::Fetching);
    assert!(pipeline.step(Event::Written(true)).is_some());
    assert!(pipeline.step(Event::Written(true)).is_none());
    assert!(pipeline.step(Event::Start).is_none());
    assert_eq!(pipeline.stage(), Stage::Persisted);
}

#[test]
fn a_finished_run_refuses_everything() {
    let mut done = Pipeline::new(run_on("out.html", "x"));
    World::new(FetchReply::Body(s("x"))).drive(&mut done);
    assert_eq!(done.stage(), Stage::Extracted);
    let mut failed = Pipeline::new(run_on("out.html", "x"));
    World::new(FetchReply::Unreachable).drive(&mut failed);
    assert_eq!(failed.stage(), Stage::Failed);
    for pipeline in [&mut done, &mut failed] {
        let before = pipeline.stage();
        assert!(pipeline.step(Event::Start).is_none());
        assert!(pipeline.step(Event::Fetched(FetchReply::Body(s("x")))).is_none());
        assert!(pipeline.step(Event::Written(true)).is_none());
        assert!(pipeline.step(Event::Written(false)).is_none());
        assert!(pipeline.step(Event::Loaded(Some(s("x")))).is_none());
        assert!(pipeline.step(Event::Loaded(None)).is_none());
        assert_eq!(pipeline.stage(), before);
    }
}
