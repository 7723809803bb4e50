//! A topic with the set of URLs that serve it.
use vstd::prelude::*;

use crate::keys::{key_set, sorted_by_key, table_of, upsert};

verus! {

pub struct TopicUrlElement {
    pub name: String,
    /// In order, without repeats.
    pub urls: Vec<String>,
}

impl TopicUrlElement {
    pub open spec fn wf(&self) -> bool {
        sorted_by_key(self.urls@)
    }

    pub fn new(name: String, urls: Vec<String>) -> (r: TopicUrlElement)
        ensures
            r.wf(),
            r.name == name,
            key_set(r.urls@) == key_set(urls@),
    {
        TopicUrlElement { name, urls: table_of(urls) }
    }

    /// Adds `urls` to the set.
    pub fn add_urls(&mut self, urls: Vec<String>)
        requires
            old(self).wf(),
        ensures
            final(self).wf(),
            final(self).name == old(self).name,
            key_set(final(self).urls@) == key_set(old(self).urls@).union(key_set(urls@)),
    {
        let ghost all = urls@;
        let mut rest = urls;
        proof {
            assert(all.subrange(all.len() as int, all.len() as int).len() == 0);
            assert(key_set(self.urls@) =~= key_set(self.urls@).union(
                key_set(all.subrange(all.len() as int, all.len() as int)),
            ));
        }
        let ghost start = key_set(self.urls@);
        let ghost name = self.name;
        while rest.len() > 0
            invariant
                self.name == name,
                sorted_by_key(self.urls@),
                rest@ == all.subrange(0, rest@.len() as int),
                rest@.len() <= all.len(),
                key_set(self.urls@) =~= start.union(
                    key_set(all.subrange(rest@.len() as int, all.len() as int)),
                ),
            decreases rest@.len(),
        {
            let n = rest.len();
            let url = rest.pop().unwrap();
            proof {
                assert(all[n - 1] == url);
                assert(rest@ =~= all.subrange(0, n - 1));
                crate::keys::lemma_key_set_suffix(all, n - 1);
            }
            upsert(&mut self.urls, url);
            proof {
                assert(key_set(self.urls@) =~= crate::keys::map_of(self.urls@).dom());
            }
        }
        proof {
            assert(all.subrange(0, all.len() as int) =~= all);
        }
    }
}

} // verus!
