use vstd::prelude::*;

use crate::bytes::{append, views, NEWLINE, SPACE, TAB};
use crate::control::{fields_view, Field, COLON};
use crate::search::{contains, contains_bytes, occurs_at};

verus! {

/// The bytes that `u8::is_ascii_whitespace` accepts.
pub open spec fn is_ascii_whitespace(b: u8) -> bool {
    b == SPACE || b == TAB || b == NEWLINE || b == 12u8 || b == 13u8
}

/// The words of `s` read up to its end: those already closed by whitespace,
/// and the word still open (empty where there is none).
pub open spec fn word_state(s: Seq<u8>) -> (Seq<Seq<u8>>, Seq<u8>)
    decreases s.len(),
{
    if s.len() == 0 {
        (Seq::empty(), Seq::empty())
    } else {
        let (done, open) = word_state(s.drop_last());
        if is_ascii_whitespace(s.last()) {
            if open.len() > 0 {
                (done.push(open), Seq::empty())
            } else {
                (done, Seq::empty())
            }
        } else {
            (done, open.push(s.last()))
        }
    }
}

/// The non-empty runs of `s` between ASCII whitespace, in order.
pub open spec fn words(s: Seq<u8>) -> Seq<Seq<u8>> {
    let (done, open) = word_state(s);
    if open.len() > 0 {
        done.push(open)
    } else {
        done
    }
}

/// The architecture that needs no qualification.
pub open spec fn arch_all() -> Seq<u8> {
    seq![97u8, 108u8, 108u8]
}

/// The identifier of package `name` built for `arch`: `name:arch`, but the bare
/// name for `all`.
pub open spec fn qualified(name: Seq<u8>, arch: Seq<u8>) -> Seq<u8> {
    if arch == arch_all() {
        name
    } else {
        name + seq![COLON] + arch
    }
}

/// `id` names package `name`, bare or with an architecture.
pub open spec fn identifies(id: Seq<u8>, name: Seq<u8>) -> bool {
    exists|arch: Seq<u8>| id == qualified(name, arch)
}

/// The key of the field that lists a package's architectures.
pub open spec fn architecture_key() -> Seq<u8> {
    seq![65u8, 114u8, 99u8, 104u8, 105u8, 116u8, 101u8, 99u8, 116u8, 117u8, 114u8, 101u8]
}

/// The index of the first field at `i` or after it whose key is `key`.
pub open spec fn find_key_from(fs: Seq<(Seq<u8>, Seq<u8>)>, key: Seq<u8>, i: int) -> Option<int>
    decreases fs.len() - i,
{
    if i < 0 || i >= fs.len() {
        None
    } else if fs[i].0 == key {
        Some(i)
    } else {
        find_key_from(fs, key, i + 1)
    }
}

/// The package that a stanza describes: the value of its first field.
pub open spec fn package_name(fs: Seq<(Seq<u8>, Seq<u8>)>) -> Seq<u8> {
    fs[0].1
}

/// The identifiers that a stanza gives under `filter`: where the package name
/// holds `filter`, one per word of the first `Architecture` field after the
/// name; none where there is no such field.
pub open spec fn identifiers_of(fs: Seq<(Seq<u8>, Seq<u8>)>, filter: Seq<u8>) -> Seq<Seq<u8>> {
    if fs.len() == 0 || !contains(package_name(fs), filter) {
        Seq::empty()
    } else {
        match find_key_from(fs, architecture_key(), 1) {
            None => Seq::empty(),
            Some(a) => words(fs[a].1).map_values(|arch: Seq<u8>| qualified(package_name(fs), arch)),
        }
    }
}

/// A stanza with no `Architecture` field after the name gives no identifier,
/// whatever its name.
pub proof fn lemma_no_architecture_no_identifiers(fs: Seq<(Seq<u8>, Seq<u8>)>, filter: Seq<u8>)
    requires
        find_key_from(fs, architecture_key(), 1) is None,
    ensures
        identifiers_of(fs, filter).len() == 0,
{
}

/// A name holding the filter anywhere, at any position and inside any word,
/// is a match: the stanza gives one identifier per listed architecture.
pub proof fn lemma_match_anywhere(fs: Seq<(Seq<u8>, Seq<u8>)>, filter: Seq<u8>, at: int, a: int)
    requires
        fs.len() > 0,
        occurs_at(package_name(fs), filter, at),
        find_key_from(fs, architecture_key(), 1) == Some(a),
    ensures
        identifiers_of(fs, filter) == words(fs[a].1).map_values(
            |arch: Seq<u8>| qualified(package_name(fs), arch),
        ),
{
}

/// Each package kept for reinstalling stands, under some architecture, among
/// the identifiers found.
pub open spec fn reinstall_covered(matched: Seq<Seq<u8>>, reinstall: Seq<Seq<u8>>) -> bool {
    forall|r: int| 0 <= r < reinstall.len() ==> found_among(matched, #[trigger] reinstall[r])
}

/// Some identifier of `matched` names package `name`.
pub open spec fn found_among(matched: Seq<Seq<u8>>, name: Seq<u8>) -> bool {
    exists|m: int| 0 <= m < matched.len() && identifies(#[trigger] matched[m], name)
}

/// Whether `a` and `b` hold the same bytes.
pub fn bytes_eq(a: &[u8], b: &[u8]) -> (r: bool)
    ensures
        r == (a@ == b@),
{
    if a.len() != b.len() {
        return false;
    }
    let mut i: usize = 0;
    while i < a.len()
        invariant
            i <= a@.len(),
            a@.len() == b@.len(),
            a@.subrange(0, i as int) == b@.subrange(0, i as int),
        decreases a@.len() - i,
    {
        if a[i] != b[i] {
            assert(a@[i as int] != b@[i as int]);
            return false;
        }
        assert(a@.subrange(0, i + 1) =~= a@.subrange(0, i as int).push(a@[i as int]));
        assert(b@.subrange(0, i + 1) =~= b@.subrange(0, i as int).push(b@[i as int]));
        i = i + 1;
    }
    assert(a@.subrange(0, i as int) =~= a@);
    assert(b@.subrange(0, i as int) =~= b@);
    true
}

/// Whether `list` holds `item`, byte for byte.
pub fn list_contains(list: &Vec<Vec<u8>>, item: &[u8]) -> (r: bool)
    ensures
        r == views(list@).contains(item@),
{
    let mut i: usize = 0;
    while i < list.len()
        invariant
            i <= list@.len(),
            forall|k: int| 0 <= k < i ==> list@[k]@ != item@,
        decreases list@.len() - i,
    {
        if bytes_eq(list[i].as_slice(), item) {
            assert(views(list@)[i as int] == item@);
            return true;
        }
        i = i + 1;
    }
    proof {
        if views(list@).contains(item@) {
            let k = choose|k: int| 0 <= k < views(list@).len() && views(list@)[k] == item@;
            assert(list@[k]@ == item@);
        }
    }
    false
}

/// The words of `s`, as `words` says.
pub fn split_words(s: &[u8]) -> (r: Vec<Vec<u8>>)
    ensures
        views(r@) == words(s@),
{
    let mut done: Vec<Vec<u8>> = Vec::new();
    let mut open: Vec<u8> = Vec::new();
    let mut i: usize = 0;
    while i < s.len()
        invariant
            i <= s@.len(),
            (views(done@), open@) == word_state(s@.subrange(0, i as int)),
        decreases s@.len() - i,
    {
        let b = s[i];
        assert(s@.subrange(0, i + 1).drop_last() =~= s@.subrange(0, i as int));
        if b == SPACE || b == TAB || b == NEWLINE || b == 12u8 || b == 13u8 {
            if open.len() > 0 {
                let closed = open;
                open = Vec::new();
                let ghost before = done@;
                done.push(closed);
                assert(views(done@) =~= views(before).push(closed@));
            }
        } else {
            open.push(b);
        }
        i = i + 1;
    }
    assert(s@.subrange(0, s@.len() as int) =~= s@);
    if open.len() > 0 {
        let ghost before = done@;
        done.push(open);
        assert(views(done@) =~= views(before).push(open@));
    }
    done
}

/// The identifier of package `name` built for `arch`.
pub fn qualify(name: &[u8], arch: &[u8]) -> (r: Vec<u8>)
    ensures
        r@ == qualified(name@, arch@),
{
    let all: [u8; 3] = [97u8, 108u8, 108u8];
    let all_ref: &[u8] = all.as_slice();
    assert(all_ref@ =~= arch_all());
    let mut r: Vec<u8> = Vec::new();
    append(&mut r, name);
    if !bytes_eq(arch, all_ref) {
        r.push(COLON);
        append(&mut r, arch);
    }
    r
}

/// The index of the first field at `start` or after it whose key is `key`.
pub fn find_key(fields: &Vec<Field>, key: &[u8], start: usize) -> (r: Option<usize>)
    ensures
        match find_key_from(fields_view(fields@), key@, start as int) {
            Some(a) => r matches Some(b) && b as int == a,
            None => r is None,
        },
        r matches Some(a) ==> a < fields@.len() && fields@[a as int].key@ == key@,
{
    let ghost fs = fields_view(fields@);
    let mut i: usize = start;
    while i < fields.len()
        invariant
            start <= i,
            fs == fields_view(fields@),
            find_key_from(fs, key@, start as int) == find_key_from(fs, key@, i as int),
        decreases fields@.len() - i,
    {
        if bytes_eq(fields[i].key.as_slice(), key) {
            return Some(i);
        }
        i = i + 1;
    }
    None
}

/// The identifiers found so far, and the packages kept for reinstalling.
pub struct PackageScan {
    pub matched: Vec<Vec<u8>>,
    pub reinstall: Vec<Vec<u8>>,
}

impl PackageScan {
    pub open spec fn matched_view(&self) -> Seq<Seq<u8>> {
        views(self.matched@)
    }

    pub open spec fn reinstall_view(&self) -> Seq<Seq<u8>> {
        views(self.reinstall@)
    }

    /// No package is kept for reinstalling that was not found, and none twice.
    pub open spec fn wf(&self) -> bool {
        &&& reinstall_covered(self.matched_view(), self.reinstall_view())
        &&& self.reinstall_view().no_duplicates()
    }

    pub fn new() -> (r: PackageScan)
        ensures
            r.matched_view() == Seq::<Seq<u8>>::empty(),
            r.reinstall_view() == Seq::<Seq<u8>>::empty(),
            r.wf(),
    {
        let r = PackageScan { matched: Vec::new(), reinstall: Vec::new() };
        assert(r.matched_view() =~= Seq::<Seq<u8>>::empty());
        assert(r.reinstall_view() =~= Seq::<Seq<u8>>::empty());
        r
    }

    /// Takes in one stanza of the package-status database: appends the
    /// identifiers it gives under `filter`, and keeps the package for
    /// reinstalling where it gave any, stands in `whitelist`, and is not kept
    /// already.
    pub fn add_stanza(&mut self, fields: &Vec<Field>, filter: &[u8], whitelist: &Vec<Vec<u8>>)
        requires
            old(self).wf(),
        ensures
            final(self).wf(),
            final(self).matched_view() == old(self).matched_view() + identifiers_of(
                fields_view(fields@),
                filter@,
            ),
            final(self).reinstall_view() == if identifiers_of(fields_view(fields@), filter@).len()
                > 0 && views(whitelist@).contains(package_name(fields_view(fields@)))
                && !old(self).reinstall_view().contains(package_name(fields_view(fields@))) {
                old(self).reinstall_view().push(package_name(fields_view(fields@)))
            } else {
                old(self).reinstall_view()
            },
    {
        let ghost fs = fields_view(fields@);
        let ghost ids = identifiers_of(fs, filter@);
        if fields.len() == 0 {
            assert(ids =~= Seq::<Seq<u8>>::empty());
            assert(self.matched_view() + ids =~= self.matched_view());
            return;
        }
        let name: &[u8] = fields[0].value.as_slice();
        if !contains_bytes(name, filter) {
            assert(self.matched_view() + ids =~= self.matched_view());
            return;
        }
        let key: [u8; 12] = [65u8, 114u8, 99u8, 104u8, 105u8, 116u8, 101u8, 99u8, 116u8, 117u8, 114u8, 101u8];
        let key_ref: &[u8] = key.as_slice();
        assert(key_ref@ =~= architecture_key());
        let a = match find_key(fields, key_ref, 1) {
            None => {
                assert(self.matched_view() + ids =~= self.matched_view());
                return;
            },
            Some(a) => a,
        };
        assert(fs[a as int].1 == fields@[a as int].value@);
        assert(name@ == package_name(fs));
        assert(contains(package_name(fs), filter@));
        assert(find_key_from(fs, architecture_key(), 1) == Some(a as int));
        let archs = split_words(fields[a].value.as_slice());
        assert(ids == words(fs[a as int].1).map_values(
            |arch: Seq<u8>| qualified(package_name(fs), arch),
        ));
        let ghost start = self.matched_view();
        let ghost wv = views(archs@);
        let mut i: usize = 0;
        while i < archs.len()
            invariant
                i <= archs@.len(),
                wv == views(archs@),
                fs == fields_view(fields@),
                name@ == package_name(fs),
                ids == wv.map_values(|arch: Seq<u8>| qualified(package_name(fs), arch)),
                self.matched_view() == start + ids.take(i as int),
                self.reinstall_view() == old(self).reinstall_view(),
                self.reinstall_view().no_duplicates(),
                reinstall_covered(start, self.reinstall_view()),
            decreases archs@.len() - i,
        {
            let id = qualify(name, archs[i].as_slice());
            let ghost before = self.matched_view();
            self.matched.push(id);
            assert(self.matched_view() =~= before.push(id@));
            assert(ids.take(i + 1) =~= ids.take(i as int).push(ids[i as int]));
            i = i + 1;
        }
        assert(ids.take(i as int) =~= ids);
        proof {
            let mv = self.matched_view();
            let rv = self.reinstall_view();
            assert forall|r: int| 0 <= r < rv.len() implies found_among(mv, #[trigger] rv[r]) by {
                let x = rv[r];
                assert(found_among(start, x));
                let m = choose|m: int| 0 <= m < start.len() && identifies(#[trigger] start[m], x);
                assert(mv[m] == start[m]);
            }
            assert(reinstall_covered(mv, rv));
        }
        if archs.len() > 0 && list_contains(whitelist, name) && !list_contains(&self.reinstall, name) {
            let mut kept: Vec<u8> = Vec::new();
            append(&mut kept, name);
            let ghost before = self.reinstall_view();
            let ghost mv_old = self.matched_view();
            let ghost m = start.len() as int;
            self.reinstall.push(kept);
            assert(self.reinstall_view() =~= before.push(name@));
            assert(self.matched_view()[m] == qualified(name@, wv[0]));
            assert(identifies(self.matched_view()[m], name@));
            proof {
                let mv = self.matched_view();
                let rv = self.reinstall_view();
                assert forall|r: int| 0 <= r < rv.len() implies found_among(mv, #[trigger] rv[r]) by {
                    if r < before.len() {
                        assert(rv[r] == before[r]);
                        let x = rv[r];
                        assert(found_among(mv_old, x));
                        let k = choose|k: int| 0 <= k < mv_old.len() && identifies(#[trigger] mv_old[k], x);
                        assert(mv[k] == mv_old[k]);
                    } else {
                        assert(rv[r] == name@);
                        assert(identifies(mv[m], rv[r]));
                    }
                }
                assert(reinstall_covered(mv, rv));
            }
        }
    }
}

} // verus!
