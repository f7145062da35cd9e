//! Knowledge-base schema lifecycle: table-name validation, the registry of
//! knowledge bases, and the ordered statement plans for creating and
//! deleting a knowledge base's tables.

use vstd::prelude::*;

use crate::constants;
use crate::strtools::{str_eq, views_of};

verus! {

/// A character the allow-list accepts inside a table name.
pub open spec fn valid_name_char(c: char) -> bool {
    ('a' <= c && c <= 'z') || ('0' <= c && c <= '9') || c == '_'
}

/// The allow-list for a knowledge-base name: because the name is spliced
/// into statement text rather than bound as a parameter, only short
/// lower-case identifiers are accepted.
pub open spec fn spec_valid_table_name(s: Seq<char>) -> bool {
    &&& 1 <= s.len() <= 55
    &&& 'a' <= s[0] && s[0] <= 'z'
    &&& forall|i: int| 0 <= i < s.len() ==> valid_name_char(#[trigger] s[i])
}

/// Checks a knowledge-base name against the allow-list.
pub fn is_valid_table_name(name: &str) -> (r: bool)
    ensures
        r == spec_valid_table_name(name@),
{
    let n = name.unicode_len();
    if n < 1 || n > 55 {
        return false;
    }
    let c0 = name.get_char(0);
    if !('a' <= c0 && c0 <= 'z') {
        return false;
    }
    let mut i: usize = 0;
    while i < n
        invariant
            n == name@.len(),
            0 <= i <= n,
            forall|k: int| 0 <= k < i ==> valid_name_char(#[trigger] name@[k]),
        decreases n - i,
    {
        let c = name.get_char(i);
        if !(('a' <= c && c <= 'z') || ('0' <= c && c <= '9') || c == '_') {
            return false;
        }
        i = i + 1;
    }
    true
}

/// What registering a name does to the registry's contents: nothing when
/// the name is already present, else it is appended.
pub open spec fn spec_register(names: Seq<Seq<char>>, name: Seq<char>) -> Seq<Seq<char>> {
    if names.contains(name) {
        names
    } else {
        names.push(name)
    }
}

/// What unregistering a name does: every occurrence is dropped.
pub open spec fn spec_unregister(names: Seq<Seq<char>>, name: Seq<char>) -> Seq<Seq<char>> {
    names.filter(|x: Seq<char>| x != name)
}

/// The registry of knowledge bases: each name listed once, in insertion
/// order. It models the registry table the store keeps.
pub struct KnowledgeBaseRegistry {
    names: Vec<String>,
}

impl View for KnowledgeBaseRegistry {
    type V = Seq<Seq<char>>;

    closed spec fn view(&self) -> Seq<Seq<char>> {
        views_of(self.names@)
    }
}

impl KnowledgeBaseRegistry {
    /// Names are unique: re-creating a knowledge base must not duplicate
    /// its registry row.
    pub open spec fn wf(&self) -> bool {
        self@.no_duplicates()
    }

    /// An empty registry.
    pub fn new() -> (r: KnowledgeBaseRegistry)
        ensures
            r@ == Seq::<Seq<char>>::empty(),
            r.wf(),
    {
        let r = KnowledgeBaseRegistry { names: Vec::new() };
        proof {
            assert(r@ =~= Seq::<Seq<char>>::empty());
        }
        r
    }

    /// Whether a knowledge base of this name is registered.
    pub fn contains_name(&self, name: &str) -> (r: bool)
        ensures
            r == self@.contains(name@),
    {
        let mut i: usize = 0;
        while i < self.names.len()
            invariant
                0 <= i <= self@.len(),
                self@.len() == self.names@.len(),
                forall|k: int| 0 <= k < i ==> self@[k] != name@,
            decreases self@.len() - i,
        {
            if str_eq(self.names[i].as_str(), name) {
                proof {
                    assert(self@[i as int] == name@);
                }
                return true;
            }
            i = i + 1;
        }
        proof {
            if self@.contains(name@) {
                let w = choose|w: int| 0 <= w < self@.len() && self@[w] == name@;
                assert(false);
            }
        }
        false
    }

    /// Registers a name; registering an existing name is a no-op, so
    /// creation is idempotent.
    pub fn register(&mut self, name: String) -> (added: bool)
        requires
            old(self).wf(),
        ensures
            final(self)@ == spec_register(old(self)@, name@),
            final(self).wf(),
            added == !old(self)@.contains(name@),
    {
        if self.contains_name(name.as_str()) {
            false
        } else {
            let ghost before = self@;
            self.names.push(name);
            proof {
                assert(self@ =~= before.push(name@));
                assert forall|i: int, j: int|
                    0 <= i < j < self@.len() implies self@[i] != self@[j] by {
                    if j == self@.len() - 1 {
                        assert(!before.contains(name@));
                        if before[i] == name@ {
                            assert(before.contains(name@));
                        }
                    }
                }
            }
            true
        }
    }

    /// Removes a name; removing an absent name is a no-op, so deletion is
    /// idempotent.
    pub fn unregister(&mut self, name: &str)
        requires
            old(self).wf(),
        ensures
            final(self)@ == spec_unregister(old(self)@, name@),
            final(self).wf(),
    {
        let ghost orig = self@;
        let ghost pred = |x: Seq<char>| x != name@;
        let mut kept: Vec<String> = Vec::new();
        let mut i: usize = 0;
        let n = self.names.len();
        while i < n
            invariant
                n == orig.len(),
                self@ == orig,
                self@.len() == self.names@.len(),
                0 <= i <= n,
                pred == (|x: Seq<char>| x != name@),
                views_of(kept@) == orig.take(i as int).filter(pred),
            decreases n - i,
        {
            proof {
                assert(orig.take(i + 1) =~= orig.take(i as int).push(orig[i as int]));
                crate::seqtools::lemma_filter_push(orig.take(i as int), pred, orig[i as int]);
            }
            let ghost kept_before = kept@;
            if !str_eq(self.names[i].as_str(), name) {
                let entry = self.names[i].clone();
                kept.push(entry);
                proof {
                    assert(views_of(kept@) =~= views_of(kept_before).push(orig[i as int]));
                }
            }
            i = i + 1;
        }
        proof {
            assert(orig.take(orig.len() as int) =~= orig);
        }
        self.names = kept;
        proof {
            crate::seqtools::lemma_filter_no_duplicates(orig, pred);
        }
    }

    /// Guards an operation against an unknown knowledge base: searching or
    /// ingesting into an unregistered name surfaces the not-found error
    /// rather than silently returning nothing.
    pub fn ensure_registered(&self, name: &str) -> (r: Result<(), crate::RagError>)
        ensures
            match r {
                Ok(u) => self@.contains(name@),
                Err(e) => e == crate::RagError::NotFound && !self@.contains(name@),
            },
    {
        if self.contains_name(name) {
            Ok(())
        } else {
            Err(crate::RagError::NotFound)
        }
    }

    /// The registered names, in insertion order.
    pub fn list(&self) -> (r: Vec<String>)
        ensures
            views_of(r@) == self@,
    {
        let mut out: Vec<String> = Vec::new();
        let mut i: usize = 0;
        while i < self.names.len()
            invariant
                0 <= i <= self@.len(),
                self@.len() == self.names@.len(),
                views_of(out@) == self@.take(i as int),
            decreases self@.len() - i,
        {
            let entry = self.names[i].clone();
            proof {
                assert(entry@ == self@[i as int]);
            }
            let ghost out_before = out@;
            out.push(entry);
            proof {
                assert(views_of(out@) =~= views_of(out_before).push(entry@));
                assert(views_of(out@) =~= self@.take(i + 1));
            }
            i = i + 1;
        }
        proof {
            assert(self@.take(self@.len() as int) =~= self@);
        }
        out
    }
}

/// Creating a knowledge base twice leaves one registry entry, present
/// exactly once; the second call changes nothing.
pub proof fn lemma_create_idempotent(names: Seq<Seq<char>>, name: Seq<char>)
    requires
        names.no_duplicates(),
    ensures
        spec_register(spec_register(names, name), name) == spec_register(names, name),
        spec_register(names, name).contains(name),
        spec_register(names, name).no_duplicates(),
{
    let once = spec_register(names, name);
    if names.contains(name) {
    } else {
        assert(once[once.len() - 1] == name);
        assert(once.contains(name));
        assert forall|i: int, j: int| 0 <= i < j < once.len() implies once[i] != once[j] by {
            if j == once.len() - 1 {
                if names[i] == name {
                    assert(names.contains(name));
                }
            }
        }
    }
}

/// Deleting a knowledge base twice is the same as deleting it once: the
/// second call finds nothing and changes nothing.
pub proof fn lemma_delete_idempotent(names: Seq<Seq<char>>, name: Seq<char>)
    ensures
        spec_unregister(spec_unregister(names, name), name) == spec_unregister(names, name),
        !spec_unregister(names, name).contains(name),
    decreases names.len(),
{
    reveal(Seq::filter);
    let once = spec_unregister(names, name);
    if names.len() == 0 {
        assert(!once.contains(name));
    } else {
        lemma_delete_idempotent(names.drop_last(), name);
        let inner = spec_unregister(names.drop_last(), name);
        if names.last() != name {
            assert(once == inner.push(names.last()));
            assert(once.drop_last() =~= inner);
            assert(spec_unregister(once, name) == spec_unregister(inner, name).push(
                names.last(),
            ));
            assert forall|w: int| 0 <= w < once.len() implies once[w] != name by {
                if w < inner.len() && inner[w] == name {
                    assert(inner.contains(name));
                }
            }
        } else {
            assert(once == inner);
        }
    }
}

/// The ordered statements that create a knowledge base: its chunk/vector
/// table, its raw-content table, and its registry row, in that order.
pub fn create_table_plan(table_name: &str) -> (r: Vec<String>)
    requires
        spec_valid_table_name(table_name@),
    ensures
        r@.len() == 3,
        r@[0]@ == "CREATE TABLE IF NOT EXISTS "@ + table_name@
            + " (id bigserial PRIMARY KEY, content_id TEXT, content_chunk TEXT, chunk_number int, embedding vector(1024), metadata JSON, created_at timestamp)"@,
        r@[1]@ == "CREATE TABLE IF NOT EXISTS "@ + table_name@
            + "_content (id bigserial PRIMARY KEY, content_id TEXT, title TEXT, text TEXT, metadata JSON)"@,
        r@[2]@ == "INSERT INTO search_tables (table_name) VALUES ($1)"@,
{
    let mut plan: Vec<String> = Vec::new();
    plan.push(constants::create_vector_table_sql(table_name));
    plan.push(constants::create_raw_content_table_sql(table_name));
    plan.push(constants::insert_into_search_table_sql());
    plan
}

/// The ordered statements that delete a knowledge base: drop its
/// chunk/vector table, drop its raw-content table, and remove its registry
/// row, in that order; each tolerates the tables' absence.
pub fn delete_table_plan(table_name: &str) -> (r: Vec<String>)
    requires
        spec_valid_table_name(table_name@),
    ensures
        r@.len() == 3,
        r@[0]@ == "DROP TABLE IF EXISTS "@ + table_name@,
        r@[1]@ == "DROP TABLE IF EXISTS "@ + table_name@ + "_content"@,
        r@[2]@ == "DELETE FROM search_tables WHERE table_name = '"@ + table_name@ + "'"@,
{
    let mut plan: Vec<String> = Vec::new();
    plan.push(constants::get_drop_table_sql(String::from_str(table_name)));
    let with_suffix = String::from_str(table_name).concat("_content");
    plan.push(constants::get_drop_table_sql(with_suffix));
    plan.push(constants::get_delete_from_search_table_sql(table_name));
    plan
}

} // verus!
