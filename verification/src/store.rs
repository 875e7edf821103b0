//! The version store: the durable record of which versions are installed,
//! persisted as one identifier per line in a flat registry file. Entries
//! are unique; blank lines are ignored on read and never written.

use crate::text::{
    is_space, lemma_line_len, lemma_trim_of_valid_id, lemma_trim_props, line_len, str_eq, trim,
    trim_str, valid_id,
};
use vstd::prelude::*;

verus! {

/// Pairwise-distinct entries.
pub open spec fn no_dups(s: Seq<Seq<char>>) -> bool {
    forall|i: int, j: int| 0 <= i < j < s.len() ==> s[i] != s[j]
}

/// `s` with `x` appended, unless `x` is already present.
pub open spec fn spec_add(s: Seq<Seq<char>>, x: Seq<char>) -> Seq<Seq<char>> {
    if s.contains(x) {
        s
    } else {
        s.push(x)
    }
}

/// `s` with every occurrence of `x` removed; the other entries keep their
/// order.
pub open spec fn spec_remove(s: Seq<Seq<char>>, x: Seq<char>) -> Seq<Seq<char>>
    decreases s.len(),
{
    if s.len() == 0 {
        Seq::empty()
    } else {
        spec_remove(s.drop_last(), x) + (if s.last() == x {
            Seq::<Seq<char>>::empty()
        } else {
            seq![s.last()]
        })
    }
}

pub proof fn lemma_remove_membership(s: Seq<Seq<char>>, x: Seq<char>)
    ensures
        forall|y: Seq<char>|
            #[trigger] spec_remove(s, x).contains(y) <==> (s.contains(y) && y != x),
    decreases s.len(),
{
    if s.len() > 0 {
        lemma_remove_membership(s.drop_last(), x);
        let r = spec_remove(s, x);
        let rd = spec_remove(s.drop_last(), x);
        assert forall|y: Seq<char>| #[trigger] r.contains(y) implies (s.contains(y) && y != x) by {
            let i = choose|i: int| 0 <= i < r.len() && r[i] == y;
            if i < rd.len() {
                assert(rd[i] == y);
                assert(rd.contains(y));
                let j = choose|j: int| 0 <= j < s.drop_last().len() && s.drop_last()[j] == y;
                assert(s[j] == y);
            } else {
                assert(y == s.last());
                assert(s[s.len() - 1] == y);
            }
        }
        assert forall|y: Seq<char>| s.contains(y) && y != x implies #[trigger] r.contains(y) by {
            let i = choose|i: int| 0 <= i < s.len() && s[i] == y;
            if i < s.len() - 1 {
                assert(s.drop_last()[i] == y);
                assert(s.drop_last().contains(y));
                assert(rd.contains(y));
                let j = choose|j: int| 0 <= j < rd.len() && rd[j] == y;
                assert(r[j] == y);
            } else {
                assert(y == s.last());
                assert(r[rd.len() as int] == y);
            }
        }
    }
}

pub proof fn lemma_remove_no_dups(s: Seq<Seq<char>>, x: Seq<char>)
    requires
        no_dups(s),
    ensures
        no_dups(spec_remove(s, x)),
    decreases s.len(),
{
    if s.len() > 0 {
        assert(no_dups(s.drop_last()));
        lemma_remove_no_dups(s.drop_last(), x);
        lemma_remove_membership(s.drop_last(), x);
        let r = spec_remove(s, x);
        let rd = spec_remove(s.drop_last(), x);
        if s.last() != x {
            assert forall|i: int, j: int| 0 <= i < j < r.len() implies r[i] != r[j] by {
                if j < rd.len() {
                } else {
                    assert(r[j] == s.last());
                    assert(rd[i] == r[i]);
                    assert(rd.contains(rd[i]));
                    if r[i] == s.last() {
                        let k = choose|k: int|
                            0 <= k < s.drop_last().len() && s.drop_last()[k] == rd[i];
                        assert(s[k] == s[s.len() - 1]);
                    }
                }
            }
        }
    }
}

pub proof fn lemma_add_no_dups(s: Seq<Seq<char>>, x: Seq<char>)
    requires
        no_dups(s),
    ensures
        no_dups(spec_add(s, x)),
{
    if !s.contains(x) {
        let r = s.push(x);
        assert forall|i: int, j: int| 0 <= i < j < r.len() implies r[i] != r[j] by {
            if j == s.len() {
                assert(r[i] == s[i]);
                assert(s.contains(s[i]));
            }
        }
    }
}

pub proof fn lemma_add_to_set(s: Seq<Seq<char>>, x: Seq<char>)
    ensures
        spec_add(s, x).to_set() == s.to_set().insert(x),
{
    let r = spec_add(s, x);
    assert forall|y: Seq<char>| #[trigger] r.to_set().contains(y) implies s.to_set().insert(
        x,
    ).contains(y) by {
        let i = choose|i: int| 0 <= i < r.len() && r[i] == y;
        if i < s.len() {
            assert(s[i] == y);
        }
    }
    assert forall|y: Seq<char>| #[trigger] s.to_set().insert(x).contains(y) implies r.to_set()
        .contains(y) by {
        if y == x {
            if s.contains(x) {
            } else {
                assert(r[s.len() as int] == x);
            }
        } else {
            let i = choose|i: int| 0 <= i < s.len() && s[i] == y;
            assert(r[i] == y);
        }
    }
    assert(r.to_set() =~= s.to_set().insert(x));
}

pub proof fn lemma_remove_to_set(s: Seq<Seq<char>>, x: Seq<char>)
    ensures
        spec_remove(s, x).to_set() == s.to_set().remove(x),
{
    lemma_remove_membership(s, x);
    assert(spec_remove(s, x).to_set() =~= s.to_set().remove(x));
}

/// One recorded mutation of the store.
pub enum StoreOp {
    Add(Seq<char>),
    Remove(Seq<char>),
}

/// The listed entries after applying `ops`, in order, to the entries `s`.
pub open spec fn apply_ops(s: Seq<Seq<char>>, ops: Seq<StoreOp>) -> Seq<Seq<char>>
    decreases ops.len(),
{
    if ops.len() == 0 {
        s
    } else {
        let s1 = match ops[0] {
            StoreOp::Add(x) => spec_add(s, x),
            StoreOp::Remove(x) => spec_remove(s, x),
        };
        apply_ops(s1, ops.drop_first())
    }
}

/// The mathematical set after applying `ops`, in order, to the set `t`.
pub open spec fn apply_ops_set(t: Set<Seq<char>>, ops: Seq<StoreOp>) -> Set<Seq<char>>
    decreases ops.len(),
{
    if ops.len() == 0 {
        t
    } else {
        let t1 = match ops[0] {
            StoreOp::Add(x) => t.insert(x),
            StoreOp::Remove(x) => t.remove(x),
        };
        apply_ops_set(t1, ops.drop_first())
    }
}

/// Law: after any sequence of add/remove operations the listed entries are
/// exactly the mathematical set obtained by applying the same operations in
/// order, and they carry no duplicates.
pub proof fn lemma_store_tracks_set(s: Seq<Seq<char>>, ops: Seq<StoreOp>)
    requires
        no_dups(s),
    ensures
        no_dups(apply_ops(s, ops)),
        apply_ops(s, ops).to_set() == apply_ops_set(s.to_set(), ops),
    decreases ops.len(),
{
    if ops.len() > 0 {
        match ops[0] {
            StoreOp::Add(x) => {
                lemma_add_no_dups(s, x);
                lemma_add_to_set(s, x);
                lemma_store_tracks_set(spec_add(s, x), ops.drop_first());
            },
            StoreOp::Remove(x) => {
                lemma_remove_no_dups(s, x);
                lemma_remove_to_set(s, x);
                lemma_store_tracks_set(spec_remove(s, x), ops.drop_first());
            },
        }
    }
}

/// Law: a removed identifier is no longer listed, and every other entry
/// survives the removal.
pub proof fn lemma_remove_clears(s: Seq<Seq<char>>, x: Seq<char>)
    ensures
        !spec_remove(s, x).contains(x),
        forall|y: Seq<char>|
            s.contains(y) && y != x ==> #[trigger] spec_remove(s, x).contains(y),
{
    lemma_remove_membership(s, x);
}

/// Law: after an add the identifier is listed and, in a well-formed store,
/// listed exactly once.
pub proof fn lemma_add_lists_once(s: Seq<Seq<char>>, x: Seq<char>)
    requires
        no_dups(s),
    ensures
        spec_add(s, x).contains(x),
        no_dups(spec_add(s, x)),
{
    lemma_add_no_dups(s, x);
    if !s.contains(x) {
        assert(s.push(x)[s.len() as int] == x);
    }
}

/// Law: adding an identifier twice yields the same list as adding it once.
pub proof fn lemma_add_idempotent(s: Seq<Seq<char>>, x: Seq<char>)
    ensures
        spec_add(spec_add(s, x), x) == spec_add(s, x),
{
    if !s.contains(x) {
        assert(s.push(x)[s.len() as int] == x);
        assert(s.push(x).contains(x));
    }
}

/// The trimmed, non-blank lines of a registry text, in order.
pub open spec fn text_entries(s: Seq<char>) -> Seq<Seq<char>>
    decreases s.len(),
{
    if s.len() == 0 {
        Seq::empty()
    } else {
        let n = line_len(s) as int;
        if 0 <= n && n < s.len() {
            let e = trim(s.subrange(0, n));
            let rest = text_entries(s.subrange(n + 1, s.len() as int));
            if e.len() > 0 {
                seq![e] + rest
            } else {
                rest
            }
        } else {
            let e = trim(s);
            if e.len() > 0 {
                seq![e]
            } else {
                Seq::empty()
            }
        }
    }
}

/// `acc` extended by the entries of `s`, each added once.
pub open spec fn dedup_from(acc: Seq<Seq<char>>, s: Seq<Seq<char>>) -> Seq<Seq<char>>
    decreases s.len(),
{
    if s.len() == 0 {
        acc
    } else {
        dedup_from(spec_add(acc, s[0]), s.drop_first())
    }
}

/// The entries recorded by a registry text: its trimmed, non-blank lines,
/// first occurrence of each.
pub open spec fn store_of_text(s: Seq<char>) -> Seq<Seq<char>> {
    dedup_from(Seq::empty(), text_entries(s))
}

/// The registry text for the entries `s`: each entry as one line, with a
/// line break after it.
pub open spec fn registry_text(s: Seq<Seq<char>>) -> Seq<char>
    decreases s.len(),
{
    if s.len() == 0 {
        Seq::empty()
    } else {
        s[0] + seq!['\n'] + registry_text(s.drop_first())
    }
}

pub proof fn lemma_registry_text_push(s: Seq<Seq<char>>, x: Seq<char>)
    ensures
        registry_text(s.push(x)) == registry_text(s) + x + seq!['\n'],
    decreases s.len(),
{
    if s.len() == 0 {
        assert(s.push(x)[0] == x);
        assert(registry_text(s.push(x).drop_first()) == registry_text(
            Seq::<Seq<char>>::empty(),
        )) by {
            assert(s.push(x).drop_first() =~= Seq::<Seq<char>>::empty());
        }
        assert(registry_text(s.push(x)) =~= registry_text(s) + x + seq!['\n']);
    } else {
        lemma_registry_text_push(s.drop_first(), x);
        assert(s.push(x).drop_first() =~= s.drop_first().push(x));
        assert(s.push(x)[0] == s[0]);
        assert(registry_text(s.push(x)) =~= registry_text(s) + x + seq!['\n']);
    }
}

/// The set of installed version identifiers, as recorded in the registry
/// file. Entries are unique and each is a storable identifier.
pub struct VersionStore {
    versions: Vec<String>,
}

impl View for VersionStore {
    type V = Seq<Seq<char>>;

    closed spec fn view(&self) -> Seq<Seq<char>> {
        self.versions.deep_view()
    }
}

impl VersionStore {
    /// Well-formed: no duplicate entries, every entry storable as one line.
    pub open spec fn wf(&self) -> bool {
        &&& no_dups(self@)
        &&& forall|i: int| 0 <= i < self@.len() ==> valid_id(#[trigger] self@[i])
    }

    /// A store with no versions recorded.
    pub fn empty() -> (s: VersionStore)
        ensures
            s@ == Seq::<Seq<char>>::empty(),
            s.wf(),
    {
        let s = VersionStore { versions: Vec::new() };
        proof {
            assert(s@ =~= Seq::<Seq<char>>::empty());
        }
        s
    }

    /// The recorded identifiers, in insertion order.
    pub fn list(&self) -> (r: &Vec<String>)
        ensures
            r.deep_view() == self@,
    {
        &self.versions
    }

    /// Whether `id` is recorded.
    pub fn contains(&self, id: &str) -> (r: bool)
        ensures
            r == self@.contains(id@),
    {
        let mut i: usize = 0;
        while i < self.versions.len()
            invariant
                0 <= i <= self.versions.len(),
                self@.len() == self.versions@.len(),
                forall|k: int| 0 <= k < i ==> self@[k] != id@,
            decreases self.versions.len() - i,
        {
            if str_eq(self.versions[i].as_str(), id) {
                proof {
                    assert(self@[i as int] == id@);
                }
                return true;
            }
            i = i + 1;
        }
        proof {
            assert(!self@.contains(id@));
        }
        false
    }

    /// Record `id`; a no-op when it is already recorded.
    pub fn add(&mut self, id: &str)
        requires
            old(self).wf(),
            valid_id(id@),
        ensures
            final(self).wf(),
            final(self)@ == spec_add(old(self)@, id@),
    {
        if !self.contains(id) {
            let ghost orig = self@;
            self.versions.push(id.to_owned());
            proof {
                assert(self@ =~= orig.push(id@));
                lemma_add_no_dups(orig, id@);
            }
        }
    }

    /// Drop every entry equal to `id`; a no-op when none is recorded.
    pub fn remove(&mut self, id: &str)
        requires
            old(self).wf(),
        ensures
            final(self).wf(),
            final(self)@ == spec_remove(old(self)@, id@),
    {
        let ghost orig = self@;
        let mut out: Vec<String> = Vec::new();
        proof {
            assert(out.deep_view() =~= spec_remove(orig.subrange(0, 0), id@));
        }
        let mut i: usize = 0;
        while i < self.versions.len()
            invariant
                0 <= i <= self.versions.len(),
                orig == self@,
                orig.len() == self.versions@.len(),
                out.deep_view() == spec_remove(orig.subrange(0, i as int), id@),
            decreases self.versions.len() - i,
        {
            let ghost pre = out.deep_view();
            let keep = !str_eq(self.versions[i].as_str(), id);
            if keep {
                let v = self.versions[i].clone();
                out.push(v);
            }
            proof {
                let cur = orig.subrange(0, i as int + 1);
                assert(cur.drop_last() =~= orig.subrange(0, i as int));
                assert(cur.last() == orig[i as int]);
                if keep {
                    assert(out.deep_view() =~= pre.push(orig[i as int]));
                    assert(pre.push(orig[i as int]) =~= pre + seq![orig[i as int]]);
                } else {
                    assert(out.deep_view() =~= pre + Seq::<Seq<char>>::empty());
                }
            }
            i = i + 1;
        }
        proof {
            assert(orig.subrange(0, orig.len() as int) =~= orig);
            lemma_remove_membership(orig, id@);
            lemma_remove_no_dups(orig, id@);
            assert forall|k: int|
                0 <= k < spec_remove(orig, id@).len() implies valid_id(
                #[trigger] spec_remove(orig, id@)[k],
            ) by {
                assert(spec_remove(orig, id@).contains(spec_remove(orig, id@)[k]));
                let j = choose|j: int| 0 <= j < orig.len() && orig[j] == spec_remove(orig, id@)[k];
            }
        }
        self.versions = out;
    }

    /// Read a store back from the registry file's text: its trimmed,
    /// non-blank lines, first occurrence of each. A duplicate or padded
    /// entry left behind by an outside writer is repaired here rather than
    /// reported.
    pub fn parse(content: &str) -> (r: VersionStore)
        ensures
            r.wf(),
            r@ == store_of_text(content@),
    {
        let n = content.unicode_len();
        let mut store = VersionStore::empty();
        proof {
            assert(content@.subrange(0, n as int) =~= content@);
        }
        let mut i: usize = 0;
        while i < n
            invariant
                0 <= i <= n,
                n == content@.len(),
                store.wf(),
                dedup_from(store@, text_entries(content@.subrange(i as int, n as int)))
                    == store_of_text(content@),
            decreases n - i,
        {
            let ghost suf = content@.subrange(i as int, n as int);
            // scan to the end of the current line
            let mut j: usize = i;
            while j < n && content.get_char(j) != '\n'
                invariant
                    i <= j <= n,
                    n == content@.len(),
                    line_len(content@.subrange(i as int, n as int)) == (j - i) + line_len(
                        content@.subrange(j as int, n as int),
                    ),
                    forall|k: int| i <= k < j ==> content@[k] != '\n',
                decreases n - j,
            {
                proof {
                    let sj = content@.subrange(j as int, n as int);
                    assert(sj[0] == content@[j as int]);
                    assert(sj.drop_first() =~= content@.subrange(j as int + 1, n as int));
                }
                j = j + 1;
            }
            proof {
                let sj = content@.subrange(j as int, n as int);
                if j < n {
                    assert(sj[0] == content@[j as int]);
                }
                assert(line_len(suf) == j - i);
            }
            let line = content.substring_char(i, j);
            let t = trim_str(line);
            let ghost e = trim(content@.subrange(i as int, j as int));
            proof {
                // unfold text_entries on the suffix at i
                lemma_line_len(suf);
                assert(suf.subrange(0, (j - i) as int) =~= content@.subrange(i as int, j as int));
                if j < n {
                    assert(suf.subrange((j - i) as int + 1, suf.len() as int) =~= content@.subrange(
                        j as int + 1,
                        n as int,
                    ));
                } else {
                    assert(suf =~= content@.subrange(i as int, j as int));
                }
                if e.len() > 0 {
                    lemma_trim_props(content@.subrange(i as int, j as int));
                    assert(!is_space(e[0]));
                    assert(!is_space(e.last()));
                    assert forall|k: int| 0 <= k < e.len() implies e[k] != '\n' by {
                        assert(content@.subrange(i as int, j as int).contains(e[k]));
                        let m = choose|m: int|
                            0 <= m < (j - i) && content@.subrange(i as int, j as int)[m] == e[k];
                        assert(content@[i + m] != '\n');
                    }
                    assert(valid_id(e));
                }
            }
            let next_i = if j < n {
                j + 1
            } else {
                n
            };
            let ghost rest = text_entries(content@.subrange(next_i as int, n as int));
            proof {
                if j < n {
                    if e.len() > 0 {
                        assert(text_entries(suf) == seq![e] + rest);
                    } else {
                        assert(text_entries(suf) == rest);
                    }
                } else {
                    assert(content@.subrange(n as int, n as int).len() == 0);
                    if e.len() > 0 {
                        assert(text_entries(suf) =~= seq![e] + rest);
                    } else {
                        assert(text_entries(suf) =~= rest);
                    }
                }
            }
            if t.as_str().unicode_len() > 0 {
                let ghost pre = store@;
                store.add(t.as_str());
                proof {
                    assert((seq![e] + rest)[0] == e);
                    assert((seq![e] + rest).drop_first() =~= rest);
                    assert(dedup_from(pre, seq![e] + rest) == dedup_from(spec_add(pre, e), rest));
                }
            }
            i = next_i;
        }
        proof {
            assert(content@.subrange(i as int, n as int).len() == 0);
        }
        store
    }

    /// The registry file's text for this store: one entry per line, each
    /// line ended by a line break; an empty store yields empty text.
    pub fn render(&self) -> (r: String)
        ensures
            r@ == registry_text(self@),
    {
        let mut out = String::new();
        proof {
            assert(self@.subrange(0, 0) =~= Seq::<Seq<char>>::empty());
        }
        let mut i: usize = 0;
        while i < self.versions.len()
            invariant
                0 <= i <= self.versions.len(),
                self@.len() == self.versions@.len(),
                out@ == registry_text(self@.subrange(0, i as int)),
            decreases self.versions.len() - i,
        {
            let ghost pre = self@.subrange(0, i as int);
            out.append(self.versions[i].as_str());
            out.append("\n");
            proof {
                reveal_strlit("\n");
                assert("\n"@ =~= seq!['\n']);
                lemma_registry_text_push(pre, self@[i as int]);
                assert(self@.subrange(0, i as int + 1) =~= pre.push(self@[i as int]));
            }
            i = i + 1;
        }
        proof {
            assert(self@.subrange(0, self@.len() as int) =~= self@);
        }
        out
    }
}

/// Law: rendering a well-formed store and parsing the text back yields the
/// very same entries; blank lines and the trailing line break carry no
/// meaning.
pub proof fn lemma_registry_roundtrip(s: Seq<Seq<char>>)
    requires
        no_dups(s),
        forall|i: int| 0 <= i < s.len() ==> valid_id(#[trigger] s[i]),
    ensures
        store_of_text(registry_text(s)) == s,
{
    lemma_text_entries_of_registry(s);
    assert(Seq::<Seq<char>>::empty() + s =~= s);
    lemma_dedup_from_no_dups(Seq::empty(), s);
}

proof fn lemma_text_entries_of_registry(s: Seq<Seq<char>>)
    requires
        forall|i: int| 0 <= i < s.len() ==> valid_id(#[trigger] s[i]),
    ensures
        text_entries(registry_text(s)) == s,
    decreases s.len(),
{
    if s.len() > 0 {
        let x = s[0];
        let t = registry_text(s);
        let rest = registry_text(s.drop_first());
        assert(valid_id(x));
        lemma_line_len_of_entry(x, rest);
        assert(t.len() == x.len() + 1 + rest.len());
        assert(line_len(t) == x.len());
        assert(line_len(t) < t.len());
        assert(t.subrange(0, x.len() as int) =~= x);
        lemma_trim_of_valid_id(x);
        assert(t.subrange(x.len() as int + 1, t.len() as int) =~= rest);
        lemma_text_entries_of_registry(s.drop_first());
        assert(seq![x] + s.drop_first() =~= s);
    }
}

/// The first line of an entry followed by a line break is the entry itself.
proof fn lemma_line_len_of_entry(x: Seq<char>, rest: Seq<char>)
    requires
        forall|k: int| 0 <= k < x.len() ==> x[k] != '\n',
    ensures
        line_len(x + seq!['\n'] + rest) == x.len(),
    decreases x.len(),
{
    let t = x + seq!['\n'] + rest;
    if x.len() == 0 {
        assert(t[0] == '\n');
    } else {
        assert(t[0] == x[0]);
        lemma_line_len_of_entry(x.drop_first(), rest);
        assert(t.drop_first() =~= x.drop_first() + seq!['\n'] + rest);
    }
}

proof fn lemma_dedup_from_no_dups(acc: Seq<Seq<char>>, s: Seq<Seq<char>>)
    requires
        no_dups(acc + s),
    ensures
        dedup_from(acc, s) == acc + s,
    decreases s.len(),
{
    if s.len() == 0 {
        assert(acc + s =~= acc);
    } else {
        let x = s[0];
        assert(!acc.contains(x)) by {
            if acc.contains(x) {
                let i = choose|i: int| 0 <= i < acc.len() && acc[i] == x;
                assert((acc + s)[i] == x);
                assert((acc + s)[acc.len() as int] == x);
            }
        }
        assert(spec_add(acc, x) == acc.push(x));
        assert(acc.push(x) + s.drop_first() =~= acc + s);
        lemma_dedup_from_no_dups(acc.push(x), s.drop_first());
        assert(dedup_from(acc, s) == dedup_from(acc.push(x), s.drop_first()));
    }
}

} // verus!
