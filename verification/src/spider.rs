//! The spider: what it does with a fetched body, how it persists a store,
//! and how it searches what was persisted.

use vstd::prelude::*;
use crate::error::ScrapeError;
use crate::scan::{extract, matches_of, regex_accepts, regex_spans, scan_shape};
use crate::store::{lemma_entries_are_the_mapping, texts, Response};

verus! {

/// What the transport handed back for one retrieval.
#[derive(Clone, Debug)]
pub enum FetchReply {
    /// The whole body of the response, decoded as text.
    Body(String),
    /// The transport could not connect, timed out, or the server failed.
    Unreachable,
    /// A body came back that could not be decoded as text.
    Undecodable,
}

/// One write to durable storage: `content` replaces whatever `path` held.
#[derive(Clone, Debug)]
pub struct WriteOp {
    pub path: String,
    pub content: String,
}

impl View for WriteOp {
    type V = (Seq<char>, Seq<char>);

    /// The path and the content.
    open spec fn view(&self) -> (Seq<char>, Seq<char>) {
        (self.path@, self.content@)
    }
}

/// The writes of a sequence of write operations, one for one.
pub open spec fn writes(ops: Seq<WriteOp>) -> Seq<(Seq<char>, Seq<char>)> {
    Seq::new(ops.len(), |i: int| ops[i]@)
}

/// The writes that persist `contents` to `path`: one per text, in the order
/// of the walk, each to the same path.
pub open spec fn write_plan(path: Seq<char>, contents: Seq<Seq<char>>) -> Seq<
    (Seq<char>, Seq<char>),
> {
    Seq::new(contents.len(), |i: int| (path, contents[i]))
}

/// Durable storage after the writes were made in order, each replacing the
/// whole content of its path.
pub open spec fn disk_after(
    disk: Map<Seq<char>, Seq<char>>,
    ops: Seq<(Seq<char>, Seq<char>)>,
) -> Map<Seq<char>, Seq<char>>
    decreases ops.len(),
{
    if ops.len() == 0 {
        disk
    } else {
        disk_after(disk, ops.drop_last()).insert(ops.last().0, ops.last().1)
    }
}

/// What a fetch makes of the transport's reply: the one text to store, or
/// the failure.
pub open spec fn fetch_outcome(reply: FetchReply) -> Result<Seq<char>, ScrapeError> {
    match reply {
        FetchReply::Body(body) => Ok(body@),
        FetchReply::Unreachable => Err(ScrapeError::Network),
        FetchReply::Undecodable => Err(ScrapeError::Decode),
    }
}

/// What an extraction yields from what was read back and a pattern: the file
/// must have been read, then the pattern must compile, and then the matches
/// are those of one scan.
pub open spec fn extraction(loaded: Option<Seq<char>>, pattern: Seq<char>) -> Result<
    Seq<Seq<char>>,
    ScrapeError,
> {
    match loaded {
        None => Err(ScrapeError::FileRead),
        Some(text) => if regex_accepts(pattern) {
            Ok(matches_of(pattern, text))
        } else {
            Err(ScrapeError::Pattern)
        },
    }
}

/// The texts of what an extraction returned.
pub open spec fn outcome_texts(outcome: Result<Vec<String>, ScrapeError>) -> Result<
    Seq<Seq<char>>,
    ScrapeError,
> {
    match outcome {
        Ok(found) => Ok(texts(found@)),
        Err(e) => Err(e),
    }
}

/// The text of what was read back, if anything was.
pub open spec fn loaded_text(loaded: Option<String>) -> Option<Seq<char>> {
    match loaded {
        Some(text) => Some(text@),
        None => None,
    }
}

/// A named actor of a run. It starts out with an empty store, which a fetch
/// fills and hands on.
#[derive(Clone, Debug)]
pub struct Spider {
    name: String,
    response: Response,
}

impl Spider {
    /// The name that the spider stores under.
    pub closed spec fn name(&self) -> Seq<char> {
        self.name@
    }

    /// The spider holds a well-formed store with nothing in it yet.
    pub closed spec fn wf(&self) -> bool {
        &&& self.response.wf()
        &&& self.response.identifiers().len() == 0
        &&& self.response.contents().len() == 0
    }

    /// A spider of the given name, with an empty store.
    pub fn new(name: String) -> (spider: Spider)
        ensures
            spider.wf(),
            spider.name() == name@,
    {
        Spider { name: name, response: Response::new() }
    }

    /// Completes a fetch: stores the body that the transport handed back under
    /// the spider's name and returns the store, which then holds that one
    /// entry. A reply without a body fails the fetch, and no store is
    /// returned.
    pub fn start_requests(self, reply: FetchReply) -> (fetched: Result<Response, ScrapeError>)
        requires
            self.wf(),
        ensures
            match fetch_outcome(reply) {
                Ok(body) => fetched matches Ok(store) && {
                    &&& store.wf()
                    &&& store@ == Map::<Seq<char>, Seq<char>>::empty().insert(self.name(), body)
                    &&& store.identifiers() == seq![self.name()]
                    &&& store.contents() == seq![body]
                },
                Err(e) => fetched == Err::<Response, ScrapeError>(e),
            },
    {
        let Spider { name, response: mut store } = self;
        match reply {
            FetchReply::Body(body) => {
                assert(store@ =~= Map::<Seq<char>, Seq<char>>::empty());
                store.insert(name, body);
                Ok(store)
            },
            FetchReply::Unreachable => Err(ScrapeError::Network),
            FetchReply::Undecodable => Err(ScrapeError::Decode),
        }
    }

    /// Plans the persisting of a store to one file: for every text of the
    /// store, in the order of its walk, a write of that text to `filename`.
    /// Each write replaces the file, so the text written last is what stays.
    pub fn save_response(self, filename: String, resp: &Response) -> (plan: Vec<WriteOp>)
        ensures
            writes(plan@) == write_plan(filename@, resp.contents()),
            plan.len() == resp.contents().len(),
    {
        let values = resp.values();
        let mut plan: Vec<WriteOp> = Vec::new();
        let mut i: usize = 0;
        while i < values.len()
            invariant
                i <= values.len(),
                plan.len() == i,
                forall|j: int| 0 <= j < i ==> (#[trigger] plan[j])@ == (filename@, values[j]@),
            decreases values.len() - i,
        {
            plan.push(WriteOp { path: filename.clone(), content: values[i].clone() });
            i += 1;
        }
        assert(writes(plan@) =~= write_plan(filename@, texts(values@)));
        plan
    }

    /// Searches what was read back from the persisted file: `loaded` is its
    /// whole text, or nothing if it could not be read. The pattern is compiled
    /// once and the text scanned once from left to right; the matched texts
    /// are returned in the order in which they occur, none left out and none
    /// twice.
    pub fn parse(self, loaded: Option<String>, pattern: &str) -> (outcome: Result<
        Vec<String>,
        ScrapeError,
    >)
        ensures
            outcome_texts(outcome) == extraction(loaded_text(loaded), pattern@),
            outcome is Ok ==> scan_shape(
                regex_spans(pattern@, loaded_text(loaded)->0),
                loaded_text(loaded)->0,
            ),
    {
        match loaded {
            Some(data) => extract(data.as_str(), pattern),
            None => Err(ScrapeError::FileRead),
        }
    }
}

/// Persisting leaves at the path the text that was walked last and leaves
/// every other path as it was; persisting nothing changes nothing.
pub proof fn lemma_last_write_stays(
    disk: Map<Seq<char>, Seq<char>>,
    path: Seq<char>,
    contents: Seq<Seq<char>>,
)
    ensures
        contents.len() == 0 ==> disk_after(disk, write_plan(path, contents)) == disk,
        contents.len() > 0 ==> disk_after(disk, write_plan(path, contents)) == disk.insert(
            path,
            contents.last(),
        ),
    decreases contents.len(),
{
    let plan = write_plan(path, contents);
    if contents.len() > 0 {
        let earlier = contents.drop_last();
        assert(plan.drop_last() =~= write_plan(path, earlier));
        lemma_last_write_stays(disk, path, earlier);
        assert(plan.last() == (path, contents.last()));
        if earlier.len() > 0 {
            assert(disk.insert(path, earlier.last()).insert(path, contents.last()) =~= disk.insert(
                path,
                contents.last(),
            ));
        }
    }
}

/// After a store with exactly one entry was persisted, the path holds that
/// entry's text, character for character.
pub proof fn lemma_single_entry_persists(
    store: Response,
    disk: Map<Seq<char>, Seq<char>>,
    path: Seq<char>,
    identifier: Seq<char>,
)
    requires
        store.wf(),
        store.contents().len() == 1,
        store@.dom().contains(identifier),
    ensures
        disk_after(disk, write_plan(path, store.contents())).dom().contains(path),
        disk_after(disk, write_plan(path, store.contents()))[path] == store@[identifier],
{
    lemma_last_write_stays(disk, path, store.contents());
    lemma_entries_are_the_mapping(store);
    let ids = store.identifiers();
    let i = ids.index_of(identifier);
    assert(0 <= i < ids.len() && ids[i] == identifier);
}

/// After a store with several entries was persisted, the path holds the text
/// of exactly one of them: the one that is walked last.
pub proof fn lemma_several_entries_persist_one(
    store: Response,
    disk: Map<Seq<char>, Seq<char>>,
    path: Seq<char>,
)
    requires
        store.wf(),
        store.contents().len() > 1,
    ensures
        disk_after(disk, write_plan(path, store.contents())).dom().contains(path),
        disk_after(disk, write_plan(path, store.contents()))[path] == store.contents().last(),
        exists|identifier: Seq<char>| #[trigger]
            store@.dom().contains(identifier) && store@[identifier] == disk_after(
                disk,
                write_plan(path, store.contents()),
            )[path],
{
    lemma_last_write_stays(disk, path, store.contents());
    lemma_entries_are_the_mapping(store);
    let last = store.identifiers().len() - 1;
    assert(store@.dom().contains(store.identifiers()[last]));
}

/// Extracting twice from the same text with the same pattern yields the same
/// outcome.
pub proof fn lemma_extraction_repeats(
    loaded: Option<String>,
    pattern: Seq<char>,
    first: Result<Vec<String>, ScrapeError>,
    second: Result<Vec<String>, ScrapeError>,
)
    requires
        outcome_texts(first) == extraction(loaded_text(loaded), pattern),
        outcome_texts(second) == extraction(loaded_text(loaded), pattern),
    ensures
        outcome_texts(first) == outcome_texts(second),
{
}

} // verus!
