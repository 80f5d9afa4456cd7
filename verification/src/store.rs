//! The tag store: for each user, for each tag ever mentioned, one presence
//! cell.
//!
//! The store is a two-level table, user to tag to cell. Users and cells are
//! created on the first mutation that mentions them and are never removed.
//! Every mutation carries a timestamp and is reconciled against the cell it
//! meets by the rules of [`crate::cell`].

use vstd::prelude::*;
use crate::cell::{
    after_add, after_remove, apply_add, apply_remove, is_present, magnitude, present, valid_cell,
};
use crate::table::Table;
use crate::text::texts;

verus! {

/// What the store holds: for each user, the cell of each tag.
pub type Tags = Map<Seq<char>, Map<Seq<char>, int>>;

/// The cells of `user`; none for a user that the store has not met.
pub open spec fn tags_of(m: Tags, user: Seq<char>) -> Map<Seq<char>, int> {
    if m.dom().contains(user) {
        m[user]
    } else {
        Map::empty()
    }
}

/// Whether the store has a cell for `tag` of `user`.
pub open spec fn has_cell(m: Tags, user: Seq<char>, tag: Seq<char>) -> bool {
    tags_of(m, user).dom().contains(tag)
}

/// Whether `tag` is present for `user`: its cell exists and is positive.
pub open spec fn tag_present(m: Tags, user: Seq<char>, tag: Seq<char>) -> bool {
    has_cell(m, user, tag) && is_present(tags_of(m, user)[tag])
}

/// The tags that are present for `user`.
pub open spec fn present_tags(m: Tags, user: Seq<char>) -> Set<Seq<char>> {
    Set::new(|tag: Seq<char>| tag_present(m, user, tag))
}

/// The store with the cell of (`user`, `tag`) set to `value`.
pub open spec fn with_cell(m: Tags, user: Seq<char>, tag: Seq<char>, value: int) -> Tags {
    m.insert(user, tags_of(m, user).insert(tag, value))
}

/// The store with a cell for (`user`, `tag`): the one it has, or a new one
/// that holds `initial`.
pub open spec fn with_cell_if_absent(
    m: Tags,
    user: Seq<char>,
    tag: Seq<char>,
    initial: int,
) -> Tags {
    if has_cell(m, user, tag) {
        m
    } else {
        with_cell(m, user, tag, initial)
    }
}

/// The store after `add(user, tag, ts)`: a first mention creates the cell as
/// `+ts`, a later one is reconciled against the cell.
pub open spec fn with_add(m: Tags, user: Seq<char>, tag: Seq<char>, ts: int) -> Tags {
    let cell = if has_cell(m, user, tag) {
        after_add(tags_of(m, user)[tag], ts)
    } else {
        ts
    };
    with_cell(m, user, tag, cell)
}

/// The store after `remove(user, tag, ts)`: a first mention creates the cell
/// as `-ts`, a later one is reconciled against the cell.
pub open spec fn with_remove(m: Tags, user: Seq<char>, tag: Seq<char>, ts: int) -> Tags {
    let cell = if has_cell(m, user, tag) {
        after_remove(tags_of(m, user)[tag], ts)
    } else {
        -ts
    };
    with_cell(m, user, tag, cell)
}

/// Every cell of the store holds a value that a cell may hold.
pub open spec fn valid_tags(m: Tags) -> bool {
    forall|user: Seq<char>, tag: Seq<char>| #[trigger]
        has_cell(m, user, tag) ==> valid_cell(tags_of(m, user)[tag])
}

/// One mutation deletes no cell and lowers no magnitude: a cell that exists
/// before it exists after it, with a timestamp at least as large.
pub proof fn lemma_cells_only_advance(
    m: Tags,
    user: Seq<char>,
    tag: Seq<char>,
    ts: int,
    u: Seq<char>,
    t: Seq<char>,
)
    requires
        ts > 0,
        has_cell(m, u, t),
    ensures
        has_cell(with_add(m, user, tag, ts), u, t),
        magnitude(tags_of(with_add(m, user, tag, ts), u)[t]) >= magnitude(tags_of(m, u)[t]),
        has_cell(with_remove(m, user, tag, ts), u, t),
        magnitude(tags_of(with_remove(m, user, tag, ts), u)[t]) >= magnitude(tags_of(m, u)[t]),
{
}

/// One mutation of the store.
pub enum Mutation {
    /// `tag` is added for `user` as of `ts`.
    Add { user: Seq<char>, tag: Seq<char>, ts: int },
    /// `tag` is removed for `user` as of `ts`.
    Remove { user: Seq<char>, tag: Seq<char>, ts: int },
}

/// The timestamp of a mutation.
pub open spec fn timestamp_of(mutation: Mutation) -> int {
    match mutation {
        Mutation::Add { ts, .. } => ts,
        Mutation::Remove { ts, .. } => ts,
    }
}

/// The store after one mutation.
pub open spec fn after(m: Tags, mutation: Mutation) -> Tags {
    match mutation {
        Mutation::Add { user, tag, ts } => with_add(m, user, tag, ts),
        Mutation::Remove { user, tag, ts } => with_remove(m, user, tag, ts),
    }
}

/// The store after a run of mutations, applied from first to last.
pub open spec fn after_all(m: Tags, mutations: Seq<Mutation>) -> Tags
    decreases mutations.len(),
{
    if mutations.len() == 0 {
        m
    } else {
        after(after_all(m, mutations.drop_last()), mutations.last())
    }
}

/// Monotone magnitude: of two observations of one cell, the later carries a
/// timestamp at least as large as the earlier, whatever mutations of whatever
/// users and tags came between them.
pub proof fn lemma_magnitude_is_monotone(
    m: Tags,
    mutations: Seq<Mutation>,
    user: Seq<char>,
    tag: Seq<char>,
)
    requires
        forall|i: int| 0 <= i < mutations.len() ==> timestamp_of(#[trigger] mutations[i]) > 0,
        has_cell(m, user, tag),
    ensures
        has_cell(after_all(m, mutations), user, tag),
        magnitude(tags_of(after_all(m, mutations), user)[tag]) >= magnitude(
            tags_of(m, user)[tag],
        ),
    decreases mutations.len(),
{
    if mutations.len() > 0 {
        let front = mutations.drop_last();
        assert forall|i: int| 0 <= i < front.len() implies timestamp_of(#[trigger] front[i])
            > 0 by {
            assert(front[i] == mutations[i]);
        }
        lemma_magnitude_is_monotone(m, front, user, tag);
        let before = after_all(m, front);
        match mutations.last() {
            Mutation::Add { user: u, tag: t, ts } => {
                lemma_cells_only_advance(before, u, t, ts, user, tag);
            },
            Mutation::Remove { user: u, tag: t, ts } => {
                lemma_cells_only_advance(before, u, t, ts, user, tag);
            },
        }
    }
}

/// A mutation of one tag of one user leaves every other cell as it was.
pub proof fn lemma_other_cells_untouched(
    m: Tags,
    user: Seq<char>,
    tag: Seq<char>,
    ts: int,
    u: Seq<char>,
    t: Seq<char>,
)
    requires
        u != user || t != tag,
    ensures
        has_cell(with_add(m, user, tag, ts), u, t) == has_cell(m, u, t),
        has_cell(with_remove(m, user, tag, ts), u, t) == has_cell(m, u, t),
        has_cell(m, u, t) ==> tags_of(with_add(m, user, tag, ts), u)[t] == tags_of(m, u)[t],
        has_cell(m, u, t) ==> tags_of(with_remove(m, user, tag, ts), u)[t] == tags_of(m, u)[t],
{
}

/// After an add and a remove of one tag at one timestamp, in either order,
/// the tag is not among the present tags of the user. The one start from
/// which this does not hold is a cell that is present with a strictly newer
/// timestamp: there neither mutation is seen.
pub proof fn lemma_remove_wins_at_equal_timestamp(
    m: Tags,
    user: Seq<char>,
    tag: Seq<char>,
    ts: int,
)
    requires
        ts > 0,
        !(has_cell(m, user, tag) && tags_of(m, user)[tag] > ts),
    ensures
        !present_tags(
            with_remove(with_add(m, user, tag, ts), user, tag, ts),
            user,
        ).contains(tag),
        !present_tags(
            with_add(with_remove(m, user, tag, ts), user, tag, ts),
            user,
        ).contains(tag),
{
}

/// A mutation that follows an add of the same tag and is older than it
/// changes nothing: an add with a timestamp no larger, or a remove with a
/// timestamp strictly smaller.
pub proof fn lemma_older_mutation_changes_nothing(
    m: Tags,
    user: Seq<char>,
    tag: Seq<char>,
    newer: int,
    older: int,
)
    requires
        0 < older <= newer,
    ensures
        with_add(with_add(m, user, tag, newer), user, tag, older) == with_add(
            m,
            user,
            tag,
            newer,
        ),
        older < newer ==> with_remove(with_add(m, user, tag, newer), user, tag, older)
            == with_add(m, user, tag, newer),
{
    assert(with_add(with_add(m, user, tag, newer), user, tag, older) =~~= with_add(
        m,
        user,
        tag,
        newer,
    ));
    if older < newer {
        assert(with_remove(with_add(m, user, tag, newer), user, tag, older) =~~= with_add(
            m,
            user,
            tag,
            newer,
        ));
    }
}

/// After an add and then an older add of the same tag, the cell holds the
/// timestamp of the first add and the tag is present. The one start from
/// which this does not hold is a cell that carries a timestamp at least as
/// large as the first add's and is not that very add: there the first add is
/// not seen either.
pub proof fn lemma_older_add_is_silent(
    m: Tags,
    user: Seq<char>,
    tag: Seq<char>,
    newer: int,
    older: int,
)
    requires
        0 < older <= newer,
        !(has_cell(m, user, tag) && magnitude(tags_of(m, user)[tag]) >= newer && tags_of(
            m,
            user,
        )[tag] != newer),
    ensures
        tags_of(with_add(with_add(m, user, tag, newer), user, tag, older), user)[tag] == newer,
        present_tags(
            with_add(with_add(m, user, tag, newer), user, tag, older),
            user,
        ).contains(tag),
{
}

/// After an add and then an older remove of the same tag, the tag is
/// present. The one start from which this does not hold is a cell that
/// records a remove with a timestamp at least as large as the add's: there
/// the add is not seen either.
pub proof fn lemma_older_remove_is_silent(
    m: Tags,
    user: Seq<char>,
    tag: Seq<char>,
    newer: int,
    older: int,
)
    requires
        0 < older < newer,
        !(has_cell(m, user, tag) && tags_of(m, user)[tag] < 0 && magnitude(
            tags_of(m, user)[tag],
        ) >= newer),
    ensures
        present_tags(
            with_remove(with_add(m, user, tag, newer), user, tag, older),
            user,
        ).contains(tag),
{
}

/// A remove that follows an add of the same tag with a strictly smaller
/// timestamp removes the tag. The one start from which this does not hold is
/// a cell that is present with a timestamp newer than the remove's.
pub proof fn lemma_newer_remove_wins(
    m: Tags,
    user: Seq<char>,
    tag: Seq<char>,
    older: int,
    newer: int,
)
    requires
        0 < older < newer,
        !(has_cell(m, user, tag) && tags_of(m, user)[tag] > newer),
    ensures
        !present_tags(
            with_remove(with_add(m, user, tag, older), user, tag, newer),
            user,
        ).contains(tag),
{
}

spec fn cells(t: Table<i64>) -> Map<Seq<char>, int> {
    Map::new(|tag: Seq<char>| t@.dom().contains(tag), |tag: Seq<char>| t@[tag] as int)
}

/// The tags of all users. Its view is the cell of each tag of each user.
pub struct TagStore {
    users: Table<Table<i64>>,
}

impl View for TagStore {
    type V = Tags;

    closed spec fn view(&self) -> Tags {
        Map::new(
            |user: Seq<char>| self.users@.dom().contains(user),
            |user: Seq<char>| cells(self.users@[user]),
        )
    }
}

impl TagStore {
    /// No user and no tag occurs twice, and every cell holds a nonzero
    /// timestamp with its sign.
    pub closed spec fn wf(&self) -> bool {
        &&& self.users.wf()
        &&& forall|i: int|
            0 <= i < self.users.values().len() ==> (#[trigger] self.users.values()[i]).wf()
        &&& forall|i: int, j: int|
            0 <= i < self.users.values().len() && 0 <= j < self.users.values()[i].values().len()
                ==> valid_cell(#[trigger] self.users.values()[i].values()[j] as int)
    }

    /// The cells of a well-formed store are valid.
    pub proof fn lemma_valid(&self)
        requires
            self.wf(),
        ensures
            valid_tags(self@),
    {
        self.users.lemma_view();
        assert forall|user: Seq<char>, tag: Seq<char>| #[trigger]
            has_cell(self@, user, tag) implies valid_cell(tags_of(self@, user)[tag]) by {
            let i = self.users.keys().index_of(user);
            let t = self.users.values()[i];
            assert(t.wf());
            t.lemma_view();
            let j = t.keys().index_of(tag);
            assert(valid_cell(self.users.values()[i].values()[j] as int));
        }
    }

    /// A store that has met no user.
    pub fn new() -> (s: TagStore)
        ensures
            s.wf(),
            s@ == Tags::empty(),
    {
        let s = TagStore { users: Table::new() };
        assert(s@ =~= Tags::empty());
        s
    }

    /// Adds `tag` for `user` as of `ts`. The add is seen only where it is
    /// strictly newer than what the cell carries.
    pub fn add_tag(&mut self, user: &String, tag: &String, ts: i64)
        requires
            old(self).wf(),
            ts > 0,
        ensures
            final(self).wf(),
            final(self)@ == with_add(old(self)@, user@, tag@, ts as int),
    {
        let (u, t) = self.get_tag(user, tag, ts);
        let next = apply_add(self.cell_at(u, t), ts);
        self.set_cell(u, t, next);
        proof {
            assert(self@ =~~= with_add(old(self)@, user@, tag@, ts as int));
        }
    }

    /// Removes `tag` for `user` as of `ts`. The remove is seen where it is
    /// at least as new as what the cell carries, unless the cell already
    /// records a remove at `ts`.
    pub fn remove_tag(&mut self, user: &String, tag: &String, ts: i64)
        requires
            old(self).wf(),
            ts > 0,
        ensures
            final(self).wf(),
            final(self)@ == with_remove(old(self)@, user@, tag@, ts as int),
    {
        let (u, t) = self.get_tag(user, tag, -ts);
        let next = apply_remove(self.cell_at(u, t), ts);
        self.set_cell(u, t, next);
        proof {
            assert(self@ =~~= with_remove(old(self)@, user@, tag@, ts as int));
        }
    }

    /// Whether `at` is where the cell of (`user`, `tag`) stands.
    spec fn locates(&self, at: (usize, usize), user: Seq<char>, tag: Seq<char>) -> bool {
        &&& at.0 < self.users.keys().len()
        &&& self.users.keys()[at.0 as int] == user
        &&& at.1 < self.users.values()[at.0 as int].keys().len()
        &&& self.users.values()[at.0 as int].keys()[at.1 as int] == tag
    }

    /// Finds the cell of (`user`, `tag`), creating the user and the cell
    /// where the store has not met them; a new cell holds `initial`. Gives
    /// the place of the cell.
    fn get_tag(&mut self, user: &String, tag: &String, initial: i64) -> (at: (usize, usize))
        requires
            old(self).wf(),
            valid_cell(initial as int),
        ensures
            final(self).wf(),
            final(self)@ == with_cell_if_absent(old(self)@, user@, tag@, initial as int),
            final(self).locates(at, user@, tag@),
    {
        let u = match self.users.position(user.as_str()) {
            Some(u) => u,
            None => {
                let u = self.users.push(user.clone(), Table::new());
                proof {
                    assert(self@ =~~= old(self)@.insert(user@, Map::empty()));
                }
                u
            },
        };
        let ghost met = self@;
        proof {
            self.users.lemma_view();
            self.users.values()[u as int].lemma_view();
        }
        let found = self.users.value(u).position(tag.as_str());
        let t = match found {
            Some(t) => t,
            None => {
                let ghost before = *self;
                let table = self.users.value_mut(u);
                let t = table.push(tag.clone(), initial);
                proof {
                    self.users.lemma_view();
                    assert(self@ =~~= met.insert(user@, met[user@].insert(tag@, initial as int)));
                    assert forall|i: int, j: int|
                        0 <= i < self.users.values().len() && 0 <= j
                            < self.users.values()[i].values().len() implies valid_cell(
                        #[trigger] self.users.values()[i].values()[j] as int,
                    ) by {
                        if i != u || j != t {
                            assert(valid_cell(before.users.values()[i].values()[j] as int));
                        }
                    }
                }
                t
            },
        };
        proof {
            assert(self@ =~~= with_cell_if_absent(old(self)@, user@, tag@, initial as int));
        }
        (u, t)
    }

    /// The value of the cell at (`at_user`, `at_tag`).
    fn cell_at(&self, at_user: usize, at_tag: usize) -> (v: i64)
        requires
            self.wf(),
            at_user < self.users.keys().len(),
            at_tag < self.users.values()[at_user as int].keys().len(),
        ensures
            valid_cell(v as int),
            has_cell(
                self@,
                self.users.keys()[at_user as int],
                self.users.values()[at_user as int].keys()[at_tag as int],
            ),
            v == tags_of(
                self@,
                self.users.keys()[at_user as int],
            )[self.users.values()[at_user as int].keys()[at_tag as int]],
    {
        proof {
            self.users.lemma_view();
            self.users.values()[at_user as int].lemma_view();
            assert(valid_cell(self.users.values()[at_user as int].values()[at_tag as int] as int));
        }
        *self.users.value(at_user).value(at_tag)
    }

    /// Stores `value` in the cell at (`at_user`, `at_tag`).
    fn set_cell(&mut self, at_user: usize, at_tag: usize, value: i64)
        requires
            old(self).wf(),
            at_user < old(self).users.keys().len(),
            at_tag < old(self).users.values()[at_user as int].keys().len(),
            valid_cell(value as int),
        ensures
            final(self).wf(),
            final(self).users.keys() == old(self).users.keys(),
            final(self)@ == with_cell(
                old(self)@,
                old(self).users.keys()[at_user as int],
                old(self).users.values()[at_user as int].keys()[at_tag as int],
                value as int,
            ),
    {
        proof {
            self.users.lemma_view();
            self.users.values()[at_user as int].lemma_view();
        }
        let table = self.users.value_mut(at_user);
        let cell = table.value_mut(at_tag);
        *cell = value;
        proof {
            self.users.lemma_view();
            assert forall|i: int, j: int|
                0 <= i < self.users.values().len() && 0 <= j
                    < self.users.values()[i].values().len() implies valid_cell(
                #[trigger] self.users.values()[i].values()[j] as int,
            ) by {
                if i != at_user || j != at_tag {
                    assert(valid_cell(old(self).users.values()[i].values()[j] as int));
                }
            }
            assert(self@ =~~= with_cell(
                old(self)@,
                old(self).users.keys()[at_user as int],
                old(self).users.values()[at_user as int].keys()[at_tag as int],
                value as int,
            ));
        }
    }

    /// The tags that are present for `user`, each once, in no particular
    /// order. A user that the store has not met has none.
    pub fn tags_for_user(&self, user: &String) -> (tags: Vec<String>)
        requires
            self.wf(),
        ensures
            texts(tags@).no_duplicates(),
            texts(tags@).to_set() == present_tags(self@, user@),
    {
        let mut tags: Vec<String> = Vec::new();
        match self.users.get(user.as_str()) {
            None => {
                assert(texts(tags@).to_set() =~= present_tags(self@, user@));
            },
            Some(table) => {
                proof {
                    self.users.lemma_view();
                    let i = self.users.keys().index_of(user@);
                    assert(self.users.values()[i].wf());
                    table.lemma_view();
                }
                let n = table.len();
                let ghost mut from: Seq<int> = Seq::empty();
                let mut j: usize = 0;
                while j < n
                    invariant
                        table.wf(),
                        n == table.keys().len(),
                        j <= n,
                        from.len() == tags@.len(),
                        forall|a: int|
                            0 <= a < from.len() ==> 0 <= #[trigger] from[a] < j && tags@[a]@
                                == table.keys()[from[a]] && table.values()[from[a]] > 0,
                        forall|a: int, b: int|
                            0 <= a < b < from.len() ==> #[trigger] from[a] < #[trigger] from[b],
                        forall|k: int|
                            0 <= k < j && table.values()[k] > 0 ==> texts(tags@).contains(
                                #[trigger] table.keys()[k],
                            ),
                    decreases n - j,
                {
                    if present(*table.value(j)) {
                        let ghost before = tags@;
                        tags.push(table.key(j).clone());
                        proof {
                            from = from.push(j as int);
                            assert forall|k: int|
                                0 <= k < j + 1 && table.values()[k] > 0 implies texts(
                                tags@,
                            ).contains(#[trigger] table.keys()[k]) by {
                                if k < j {
                                    let a = choose|a: int|
                                        0 <= a < texts(before).len() && texts(before)[a]
                                            == table.keys()[k];
                                    assert(texts(tags@)[a] == table.keys()[k]);
                                } else {
                                    assert(texts(tags@)[tags@.len() - 1] == table.keys()[k]);
                                }
                            }
                        }
                    }
                    j = j + 1;
                }
                proof {
                    let names = texts(tags@);
                    assert forall|a: int, b: int|
                        0 <= a < names.len() && 0 <= b < names.len() && a != b implies names[a]
                        != names[b] by {
                        if a < b {
                            assert(from[a] < from[b]);
                        } else {
                            assert(from[b] < from[a]);
                        }
                    }
                    assert forall|t: Seq<char>| names.to_set().contains(t) <==> present_tags(
                        self@,
                        user@,
                    ).contains(t) by {
                        if names.contains(t) {
                            let a = choose|a: int| 0 <= a < names.len() && names[a] == t;
                            assert(table.keys()[from[a]] == t);
                        }
                        if tag_present(self@, user@, t) {
                            let k = table.keys().index_of(t);
                            assert(table.keys()[k] == t);
                        }
                    }
                    assert(names.to_set() =~= present_tags(self@, user@));
                }
            },
        }
        tags
    }
}

} // verus!
