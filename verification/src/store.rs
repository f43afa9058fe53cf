//! The content store: fetched text keyed by a logical identifier.

use vstd::prelude::*;

verus! {

/// An in-memory mapping from identifier to fetched text.
///
/// Entries are kept in the order in which their identifiers were first
/// inserted; inserting an identifier again overwrites its text in place.
/// The store is read back by walking its texts in that order.
#[derive(Clone, Debug)]
pub struct Response {
    keys: Vec<String>,
    values: Vec<String>,
}

/// The texts of a sequence of strings, one for one.
pub open spec fn texts(strings: Seq<String>) -> Seq<Seq<char>> {
    Seq::new(strings.len(), |i: int| strings[i]@)
}

impl View for Response {
    type V = Map<Seq<char>, Seq<char>>;

    /// The mapping that the store stands for.
    open spec fn view(&self) -> Map<Seq<char>, Seq<char>> {
        mapping(self.identifiers(), self.contents())
    }
}

impl Response {
    /// The identifiers held, in the order in which they are walked.
    pub closed spec fn identifiers(&self) -> Seq<Seq<char>> {
        texts(self.keys@)
    }

    /// The texts held, in the order in which they are walked.
    pub closed spec fn contents(&self) -> Seq<Seq<char>> {
        texts(self.values@)
    }

    /// Every identifier occurs once and has exactly one text.
    pub open spec fn wf(&self) -> bool {
        &&& self.identifiers().no_duplicates()
        &&& self.identifiers().len() == self.contents().len()
    }

    /// An empty store.
    pub fn new() -> (store: Response)
        ensures
            store.wf(),
            store@ == Map::<Seq<char>, Seq<char>>::empty(),
            store.identifiers() == Seq::<Seq<char>>::empty(),
            store.contents() == Seq::<Seq<char>>::empty(),
    {
        let store = Response { keys: Vec::new(), values: Vec::new() };
        assert(store.identifiers() =~= Seq::<Seq<char>>::empty());
        assert(store.contents() =~= Seq::<Seq<char>>::empty());
        assert(store@ =~= Map::<Seq<char>, Seq<char>>::empty());
        store
    }

    /// The stored texts, in the order in which they are walked. The walk is
    /// finite and can be repeated.
    pub fn values(&self) -> (all: &Vec<String>)
        ensures
            texts(all@) == self.contents(),
    {
        &self.values
    }

    /// The number of entries.
    pub fn len(&self) -> (n: usize)
        ensures
            n == self.contents().len(),
            self.wf() ==> n == self@.dom().len(),
    {
        proof {
            if self.wf() {
                lemma_entries_are_the_mapping(*self);
            }
        }
        self.values.len()
    }

    /// The text stored under `identifier`, if there is one.
    pub fn get(&self, identifier: &String) -> (text: Option<&String>)
        requires
            self.wf(),
        ensures
            text is Some <==> self@.dom().contains(identifier@),
            text matches Some(t) ==> t@ == self@[identifier@],
    {
        match self.position(identifier) {
            Some(i) => {
                assert(self.identifiers().index_of(identifier@) == i);
                assert(self.contents()[i as int] == self.values@[i as int]@);
                Some(&self.values[i])
            },
            None => None,
        }
    }

    /// Where `identifier` stands among the identifiers, if it is held.
    fn position(&self, identifier: &String) -> (found: Option<usize>)
        ensures
            match found {
                Some(i) => i < self.identifiers().len() && self.identifiers()[i as int]
                    == identifier@,
                None => !self.identifiers().contains(identifier@),
            },
    {
        let mut i: usize = 0;
        while i < self.keys.len()
            invariant
                i <= self.keys.len(),
                forall|j: int| 0 <= j < i ==> self.identifiers()[j] != identifier@,
            decreases self.keys.len() - i,
        {
            assert(self.identifiers()[i as int] == self.keys@[i as int]@);
            if self.keys[i] == *identifier {
                return Some(i);
            }
            i += 1;
        }
        None
    }

    /// Inserts `content` under `identifier`, overwriting the text that the
    /// identifier had, if any. Any text is accepted, the empty one too.
    pub fn insert(&mut self, identifier: String, content: String)
        requires
            old(self).wf(),
        ensures
            final(self).wf(),
            final(self)@ == old(self)@.insert(identifier@, content@),
            old(self)@.dom().contains(identifier@) ==> {
                &&& final(self).identifiers() == old(self).identifiers()
                &&& final(self).contents() == old(self).contents().update(
                    old(self).identifiers().index_of(identifier@),
                    content@,
                )
            },
            !old(self)@.dom().contains(identifier@) ==> {
                &&& final(self).identifiers() == old(self).identifiers().push(identifier@)
                &&& final(self).contents() == old(self).contents().push(content@)
            },
    {
        match self.position(&identifier) {
            Some(i) => {
                self.values.set(i, content);
                proof {
                    assert(final(self).identifiers() == old(self).identifiers());
                    assert(final(self).contents() =~= old(self).contents().update(
                        i as int,
                        content@,
                    ));
                    assert(old(self).identifiers().index_of(identifier@) == i);
                    lemma_overwrite(
                        old(self).identifiers(),
                        old(self).contents(),
                        i as int,
                        content@,
                    );
                }
            },
            None => {
                self.keys.push(identifier);
                self.values.push(content);
                proof {
                    assert(self.identifiers() =~= old(self).identifiers().push(identifier@));
                    assert(self.contents() =~= old(self).contents().push(content@));
                    lemma_append(old(self).identifiers(), old(self).contents(), identifier@, content@);
                }
            },
        }
    }
}

/// The mapping that parallel sequences of distinct identifiers and of their
/// texts stand for.
pub open spec fn mapping(ids: Seq<Seq<char>>, contents: Seq<Seq<char>>) -> Map<
    Seq<char>,
    Seq<char>,
> {
    Map::new(|k: Seq<char>| ids.contains(k), |k: Seq<char>| contents[ids.index_of(k)])
}

/// A well-formed store has as many entries as its mapping has identifiers,
/// and each text that is walked is the text of one identifier.
pub proof fn lemma_entries_are_the_mapping(store: Response)
    requires
        store.wf(),
    ensures
        store@.dom().finite(),
        store@.dom().len() == store.contents().len(),
        forall|i: int|
            0 <= i < store.contents().len() ==> store@.dom().contains(
                #[trigger] store.identifiers()[i],
            ) && store@[store.identifiers()[i]] == store.contents()[i],
{
    let ids = store.identifiers();
    ids.unique_seq_to_set();
    assert(store@.dom() =~= ids.to_set());
    assert forall|i: int| 0 <= i < ids.len() implies store@.dom().contains(#[trigger] ids[i])
        && store@[ids[i]] == store.contents()[i] by {
        let j = ids.index_of(ids[i]);
        assert(0 <= j < ids.len() && ids[j] == ids[i]);
    }
}

proof fn lemma_overwrite(ids: Seq<Seq<char>>, contents: Seq<Seq<char>>, i: int, text: Seq<char>)
    requires
        ids.no_duplicates(),
        ids.len() == contents.len(),
        0 <= i < ids.len(),
    ensures
        mapping(ids, contents.update(i, text)) == mapping(ids, contents).insert(ids[i], text),
{
    let after = mapping(ids, contents.update(i, text));
    let expected = mapping(ids, contents).insert(ids[i], text);
    assert forall|k: Seq<char>| after.dom().contains(k) <==> expected.dom().contains(k) by {}
    assert forall|k: Seq<char>| #[trigger] after.dom().contains(k) implies after[k] == expected[k] by {
        let j = ids.index_of(k);
        assert(0 <= j < ids.len() && ids[j] == k);
    }
    assert(after =~= expected);
}

proof fn lemma_append(
    ids: Seq<Seq<char>>,
    contents: Seq<Seq<char>>,
    id: Seq<char>,
    text: Seq<char>,
)
    requires
        ids.no_duplicates(),
        ids.len() == contents.len(),
        !ids.contains(id),
    ensures
        ids.push(id).no_duplicates(),
        mapping(ids.push(id), contents.push(text)) == mapping(ids, contents).insert(id, text),
{
    let grown = ids.push(id);
    let after = mapping(grown, contents.push(text));
    let expected = mapping(ids, contents).insert(id, text);
    assert(grown[ids.len() as int] == id);
    assert forall|k: Seq<char>| after.dom().contains(k) <==> expected.dom().contains(k) by {
        if grown.contains(k) {
            let j = choose|j: int| 0 <= j < grown.len() && grown[j] == k;
            if j < ids.len() {
                assert(ids[j] == k);
            }
        }
        if ids.contains(k) {
            let j = choose|j: int| 0 <= j < ids.len() && ids[j] == k;
            assert(grown[j] == k);
        }
    }
    assert forall|k: Seq<char>| #[trigger] after.dom().contains(k) implies after[k] == expected[k] by {
        let j = grown.index_of(k);
        assert(0 <= j < grown.len() && grown[j] == k);
        if k != id {
            assert(ids[j] == k);
            let j2 = ids.index_of(k);
            assert(0 <= j2 < ids.len() && ids[j2] == k);
            assert(j == j2);
        }
    }
    assert(after =~= expected);
}

} // verus!
