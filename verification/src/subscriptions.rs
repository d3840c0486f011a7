//! The topics that the relay is subscribed to on the broker.
//!
//! The list is what a reconnect has to restore. It holds every topic once:
//! subscribing to a topic again changes nothing.

use vstd::prelude::*;
use crate::text::text_equal;

verus! {

/// The subscribed topics, in the order in which they were first asked for.
#[derive(Debug)]
pub struct Subscriptions {
    topics: Vec<String>,
}

/// The views of a list of texts.
pub open spec fn text_views(list: Seq<String>) -> Seq<Seq<char>> {
    list.map_values(|t: String| t@)
}

/// `list` with `topic` added, unless it holds `topic` already.
pub open spec fn with_topic(list: Seq<Seq<char>>, topic: Seq<char>) -> Seq<Seq<char>> {
    if list.contains(topic) {
        list
    } else {
        list.push(topic)
    }
}

impl View for Subscriptions {
    type V = Seq<Seq<char>>;

    closed spec fn view(&self) -> Seq<Seq<char>> {
        text_views(self.topics@)
    }
}

impl Subscriptions {
    #[verifier::type_invariant]
    spec fn distinct(self) -> bool {
        text_views(self.topics@).no_duplicates()
    }

    /// The empty list.
    pub fn new() -> (subscriptions: Subscriptions)
        ensures
            subscriptions@ == Seq::<Seq<char>>::empty(),
    {
        let subscriptions = Subscriptions { topics: Vec::new() };
        assert(text_views(subscriptions.topics@) =~= Seq::<Seq<char>>::empty());
        subscriptions
    }

    /// Whether `topic` is subscribed.
    pub fn contains(&self, topic: &str) -> (found: bool)
        ensures
            found == self@.contains(topic@),
    {
        let mut i: usize = 0;
        while i < self.topics.len()
            invariant
                i <= self.topics.len(),
                forall|k: int| 0 <= k < i ==> text_views(self.topics@)[k] != topic@,
            decreases self.topics.len() - i,
        {
            if text_equal(self.topics[i].as_str(), topic) {
                assert(text_views(self.topics@)[i as int] == topic@);
                return true;
            }
            i = i + 1;
        }
        false
    }

    /// Adds `topic` unless it is subscribed already, and tells whether it was
    /// added.
    pub fn insert(&mut self, topic: &str) -> (added: bool)
        ensures
            added == !old(self)@.contains(topic@),
            final(self)@ == with_topic(old(self)@, topic@),
    {
        proof {
            use_type_invariant(&*self);
        }
        if self.contains(topic) {
            false
        } else {
            let mut topics: Vec<String> = self.topics();
            let ghost before = text_views(topics@);
            topics.push(topic.to_owned());
            proof {
                assert(text_views(topics@) =~= before.push(topic@));
            }
            *self = Subscriptions { topics };
            true
        }
    }

    /// The subscribed topics, each once.
    pub fn topics(&self) -> (list: Vec<String>)
        ensures
            text_views(list@) == self@,
            list@.len() == self@.len(),
            self@.no_duplicates(),
    {
        proof {
            use_type_invariant(self);
        }
        let mut list: Vec<String> = Vec::new();
        let mut i: usize = 0;
        while i < self.topics.len()
            invariant
                i <= self.topics.len(),
                list@.len() == i,
                forall|k: int| 0 <= k < i ==> (#[trigger] list@[k])@ == self.topics@[k]@,
            decreases self.topics.len() - i,
        {
            list.push(self.topics[i].clone());
            i = i + 1;
        }
        assert(text_views(list@) =~= text_views(self.topics@));
        list
    }
}

/// Subscribing is idempotent: a second subscription to the same topic leaves
/// the list as the first left it.
pub proof fn lemma_subscribing_is_idempotent(list: Seq<Seq<char>>, topic: Seq<char>)
    ensures
        with_topic(list, topic).contains(topic),
        with_topic(with_topic(list, topic), topic) == with_topic(list, topic),
{
    if !list.contains(topic) {
        assert(list.push(topic)[list.len() as int] == topic);
    }
}

/// Subscribing keeps the list free of duplicates.
pub proof fn lemma_subscribing_keeps_distinct(list: Seq<Seq<char>>, topic: Seq<char>)
    requires
        list.no_duplicates(),
    ensures
        with_topic(list, topic).no_duplicates(),
{
}

} // verus!
