//! The saved remote list: each entry maps a logical name to a base URL.

use vstd::prelude::*;
use crate::text::opt_view;

verus! {

/// One saved remote: a logical name, the base URL that a repository name is
/// appended to, and an optional free-form note.
pub struct Remote {
    pub name: String,
    pub base: String,
    pub note: Option<String>,
}

/// What a saved remote holds, as character sequences.
pub struct RemoteView {
    pub name: Seq<char>,
    pub base: Seq<char>,
    pub note: Option<Seq<char>>,
}

impl View for Remote {
    type V = RemoteView;

    open spec fn view(&self) -> RemoteView {
        RemoteView { name: self.name@, base: self.base@, note: opt_view(self.note) }
    }
}

/// The views of a sequence of remotes.
pub open spec fn remotes_view(rs: Seq<Remote>) -> Seq<RemoteView> {
    rs.map_values(|r: Remote| r@)
}

/// The saved configuration: remotes in the order they were added.
pub struct Config {
    pub remotes: Vec<Remote>,
}

impl View for Config {
    type V = Seq<RemoteView>;

    open spec fn view(&self) -> Seq<RemoteView> {
        remotes_view(self.remotes@)
    }
}

/// The index of the first remote called `name`, or -1 when none is.
pub open spec fn position_of(rs: Seq<RemoteView>, name: Seq<char>) -> int
    decreases rs.len(),
{
    if rs.len() == 0 {
        -1
    } else if rs[0].name == name {
        0
    } else {
        let p = position_of(rs.drop_first(), name);
        if p < 0 {
            -1
        } else {
            p + 1
        }
    }
}

/// Whether `i` is the first index whose remote is called `name`.
pub open spec fn is_first_named(rs: Seq<RemoteView>, name: Seq<char>, i: int) -> bool {
    &&& 0 <= i < rs.len()
    &&& rs[i].name == name
    &&& forall|j: int| 0 <= j < i ==> rs[j].name != name
}

/// `position_of` is -1 exactly when no remote has the name, and otherwise
/// the first index that has it.
pub proof fn lemma_position_of(rs: Seq<RemoteView>, name: Seq<char>)
    ensures
        position_of(rs, name) == -1 <==> (forall|i: int| 0 <= i < rs.len() ==> rs[i].name != name),
        position_of(rs, name) != -1 ==> is_first_named(rs, name, position_of(rs, name)),
        forall|i: int| is_first_named(rs, name, i) ==> position_of(rs, name) == i,
    decreases rs.len(),
{
    if rs.len() > 0 {
        let tail = rs.drop_first();
        lemma_position_of(tail, name);
        assert forall|i: int| 0 < i < rs.len() implies rs[i] == tail[i - 1] by {}
        if rs[0].name != name {
            assert forall|i: int| is_first_named(rs, name, i) implies position_of(rs, name)
                == i by {
                assert(is_first_named(tail, name, i - 1));
            }
            if position_of(tail, name) != -1 {
                assert(is_first_named(rs, name, position_of(tail, name) + 1));
            } else {
                assert forall|i: int| 0 <= i < rs.len() implies rs[i].name != name by {
                    if i > 0 {
                        assert(tail[i - 1] == rs[i]);
                    }
                }
            }
        }
    }
}

/// `r` with its base replaced and, when a note is given, its note replaced.
pub open spec fn with_base_and_note(
    r: RemoteView,
    base: Seq<char>,
    note: Option<Seq<char>>,
) -> RemoteView {
    RemoteView {
        base: base,
        note: if note is Some {
            note
        } else {
            r.note
        },
        ..r
    }
}

/// The list after saving `name -> base`: the first remote of that name gets
/// the new base (and the note, if one is given); with none, a new entry is
/// appended.
pub open spec fn set_remote_spec(
    rs: Seq<RemoteView>,
    name: Seq<char>,
    base: Seq<char>,
    note: Option<Seq<char>>,
) -> Seq<RemoteView> {
    let p = position_of(rs, name);
    if p >= 0 {
        rs.update(p, with_base_and_note(rs[p], base, note))
    } else {
        rs.push(RemoteView { name, base, note })
    }
}

/// The list after importing one entry: an existing remote of that name takes
/// the imported base and keeps its note; an unknown name is appended whole.
pub open spec fn import_one(rs: Seq<RemoteView>, r: RemoteView) -> Seq<RemoteView> {
    let p = position_of(rs, r.name);
    if p >= 0 {
        rs.update(p, RemoteView { base: r.base, ..rs[p] })
    } else {
        rs.push(r)
    }
}

/// The list after importing `imported` entry by entry, in order.
pub open spec fn import_all(rs: Seq<RemoteView>, imported: Seq<RemoteView>) -> Seq<RemoteView>
    decreases imported.len(),
{
    if imported.len() == 0 {
        rs
    } else {
        import_one(import_all(rs, imported.drop_last()), imported.last())
    }
}

/// How many entries of `imported` were new names at the time they were
/// imported.
pub open spec fn import_added(rs: Seq<RemoteView>, imported: Seq<RemoteView>) -> nat
    decreases imported.len(),
{
    if imported.len() == 0 {
        0
    } else {
        let before = import_all(rs, imported.drop_last());
        import_added(rs, imported.drop_last()) + if position_of(before, imported.last().name)
            < 0 {
            1nat
        } else {
            0nat
        }
    }
}

impl Config {
    /// An empty configuration.
    pub fn new() -> (r: Config)
        ensures
            r@ == Seq::<RemoteView>::empty(),
    {
        let r = Config { remotes: Vec::new() };
        assert(r@ =~= Seq::<RemoteView>::empty());
        r
    }

    /// The index of the first remote called `name`.
    pub fn position(&self, name: &String) -> (r: Option<usize>)
        ensures
            r is Some ==> r->0 == position_of(self@, name@),
            r is None ==> position_of(self@, name@) == -1,
    {
        proof {
            lemma_position_of(self@, name@);
        }
        let mut i: usize = 0;
        while i < self.remotes.len()
            invariant
                i <= self.remotes.len(),
                self@.len() == self.remotes.len(),
                forall|j: int| 0 <= j < i ==> self@[j].name != name@,
            decreases self.remotes.len() - i,
        {
            if self.remotes[i].name == *name {
                proof {
                    assert(is_first_named(self@, name@, i as int));
                    lemma_position_of(self@, name@);
                }
                return Some(i);
            }
            i = i + 1;
        }
        proof {
            lemma_position_of(self@, name@);
        }
        None
    }

    /// Saves `name -> base`, updating the first remote of that name or
    /// appending a new one. Returns whether an existing remote was updated.
    pub fn set_remote(&mut self, name: String, base: String, note: Option<String>) -> (updated:
        bool)
        ensures
            updated == (position_of(old(self)@, name@) >= 0),
            final(self)@ == set_remote_spec(old(self)@, name@, base@, opt_view(note)),
    {
        proof {
            lemma_position_of(self@, name@);
        }
        match self.position(&name) {
            Some(i) => {
                let ghost before = self@;
                let new_note = match note {
                    Some(n) => Some(n),
                    None => self.remotes[i].note.clone(),
                };
                self.remotes[i].base = base;
                self.remotes[i].note = new_note;
                proof {
                    assert(self@ =~= set_remote_spec(before, name@, base@, opt_view(note)));
                }
                true
            },
            None => {
                let ghost before = self@;
                self.remotes.push(Remote { name, base, note });
                proof {
                    assert(self@ =~= set_remote_spec(before, name@, base@, opt_view(note)));
                }
                false
            },
        }
    }

    /// Imports `imported` entry by entry: a known name takes the imported
    /// base, an unknown one is appended. Returns how many were added and how
    /// many updated.
    pub fn import_remotes(&mut self, imported: &Vec<Remote>) -> (r: (usize, usize))
        ensures
            final(self)@ == import_all(old(self)@, remotes_view(imported@)),
            r.0 == import_added(old(self)@, remotes_view(imported@)),
            r.0 + r.1 == imported@.len(),
    {
        let ghost orig = self@;
        let ghost imp = remotes_view(imported@);
        let mut added: usize = 0;
        let mut updated: usize = 0;
        let mut k: usize = 0;
        while k < imported.len()
            invariant
                k <= imported.len(),
                imp == remotes_view(imported@),
                self@ == import_all(orig, imp.subrange(0, k as int)),
                added == import_added(orig, imp.subrange(0, k as int)),
                added + updated == k,
            decreases imported.len() - k,
        {
            let item = &imported[k];
            let ghost pre = imp.subrange(0, k as int);
            let ghost cur = imp.subrange(0, k + 1);
            proof {
                assert(cur.drop_last() =~= pre);
                assert(cur.last() == item@);
                lemma_position_of(self@, item.name@);
            }
            let ghost before = self@;
            match self.position(&item.name) {
                Some(p) => {
                    self.remotes[p].base = item.base.clone();
                    updated = updated + 1;
                    proof {
                        assert(self@ =~= import_one(before, item@));
                    }
                },
                None => {
                    self.remotes.push(
                        Remote {
                            name: item.name.clone(),
                            base: item.base.clone(),
                            note: item.note.clone(),
                        },
                    );
                    added = added + 1;
                    proof {
                        assert(self@ =~= import_one(before, item@));
                    }
                },
            }
            k = k + 1;
        }
        assert(imp.subrange(0, imported.len() as int) =~= imp);
        (added, updated)
    }

    /// Drops every remote called `name`. Returns whether any was dropped.
    pub fn remove_remote(&mut self, name: &String) -> (removed: bool)
        ensures
            final(self)@ == old(self)@.filter(|r: RemoteView| r.name != name@),
            removed == (position_of(old(self)@, name@) >= 0),
    {
        proof {
            lemma_position_of(self@, name@);
        }
        let ghost pred = |r: RemoteView| r.name != name@;
        let ghost orig = self@;
        let mut kept: Vec<Remote> = Vec::new();
        let mut removed = false;
        let n = self.remotes.len();
        let mut i: usize = 0;
        while i < n
            invariant
                n == self.remotes.len(),
                orig == self@,
                pred == (|r: RemoteView| r.name != name@),
                i <= n,
                remotes_view(kept@) == orig.subrange(0, i as int).filter(pred),
                removed == (exists|j: int| 0 <= j < i && orig[j].name == name@),
            decreases n - i,
        {
            let r = &self.remotes[i];
            let ghost prev_removed = removed;
            proof {
                reveal(Seq::filter);
                assert(orig.subrange(0, i + 1).drop_last() =~= orig.subrange(0, i as int));
                assert(orig.subrange(0, i + 1).last() == r@);
                assert(pred(r@) == (r@.name != name@));
                assert(orig.subrange(0, i + 1).filter(pred) == if pred(r@) {
                    orig.subrange(0, i as int).filter(pred).push(r@)
                } else {
                    orig.subrange(0, i as int).filter(pred)
                });
            }
            if r.name == *name {
                removed = true;
                assert(orig[i as int].name == name@);
            } else {
                let copy = Remote { name: r.name.clone(), base: r.base.clone(), note: r.note.clone() };
                let ghost prev = kept@;
                kept.push(copy);
                proof {
                    assert(kept@.drop_last() =~= prev);
                    assert(remotes_view(kept@) =~= remotes_view(prev).push(copy@));
                }
            }
            assert(removed == (exists|j: int| 0 <= j < i + 1 && orig[j].name == name@)) by {
                if prev_removed {
                    let j = choose|j: int| 0 <= j < i && orig[j].name == name@;
                    assert(0 <= j < i + 1 && orig[j].name == name@);
                }
            }
            i = i + 1;
        }
        assert(orig.subrange(0, n as int) =~= orig);
        self.remotes = kept;
        removed
    }
}

/// A note cut to at most `max_len` characters, with `...` marking a cut.
pub open spec fn truncated_note(note: Seq<char>, max_len: nat) -> Seq<char> {
    if note.len() <= max_len {
        note
    } else {
        note.subrange(0, max_len as int) + "..."@
    }
}

/// Cuts `note` to `max_len` characters, appending `...` when it was
/// longer.
pub fn truncate_note(note: &str, max_len: usize) -> (r: String)
    ensures
        r@ == truncated_note(note@, max_len as nat),
{
    if note.unicode_len() <= max_len {
        note.to_owned()
    } else {
        note.substring_char(0, max_len).to_owned().concat("...")
    }
}

} // verus!
