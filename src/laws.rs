//! Properties of document assembly, proved over the specifications that the
//! assembling functions meet.
use vstd::prelude::*;
use crate::document::{key_index, keys_unique, lookup, upsert, TypeDefinitionView};
use crate::mapping::{
    assemble, const_of, enum_type_of, native_key, native_of, native_type_of,
    struct_type_of,
};
use crate::model::{Declaration, NativeDeclaration};

verus! {

proof fn lemma_key_index<V>(e: Seq<(Seq<char>, V)>, k: Seq<char>)
    ensures
        -1 <= key_index(e, k) < e.len(),
        key_index(e, k) >= 0 ==> e[key_index(e, k)].0 == k,
        key_index(e, k) >= 0 ==> forall|j: int| 0 <= j < key_index(e, k) ==> e[j].0 != k,
        key_index(e, k) == -1 ==> forall|j: int| 0 <= j < e.len() ==> e[j].0 != k,
    decreases e.len(),
{
    if e.len() > 0 {
        let p = e.drop_last();
        lemma_key_index(p, k);
        assert forall|j: int| 0 <= j < p.len() implies #[trigger] e[j] == p[j] by {}
    }
}

proof fn lemma_key_index_same_keys<V>(a: Seq<(Seq<char>, V)>, b: Seq<(Seq<char>, V)>, k: Seq<char>)
    requires
        a.len() == b.len(),
        forall|j: int| 0 <= j < a.len() ==> a[j].0 == b[j].0,
    ensures
        key_index(a, k) == key_index(b, k),
    decreases a.len(),
{
    if a.len() > 0 {
        lemma_key_index_same_keys(a.drop_last(), b.drop_last(), k);
    }
}

/// Where the entry for `k` stands after an insert under `k`.
proof fn lemma_upsert_index<V>(e: Seq<(Seq<char>, V)>, k: Seq<char>, v: V)
    ensures
        key_index(upsert(e, k, v), k) == (if key_index(e, k) >= 0 { key_index(e, k) } else { e.len() as int }),
        lookup(upsert(e, k, v), k) == Some(v),
        forall|i: int| 0 <= i < upsert(e, k, v).len() ==>
            upsert(e, k, v)[i].0 == k || (exists|j: int| 0 <= j < e.len() && e[j].0 == #[trigger] upsert(e, k, v)[i].0),
{
    lemma_key_index(e, k);
    let u = upsert(e, k, v);
    if key_index(e, k) >= 0 {
        lemma_key_index_same_keys(u, e, k);
        assert forall|i: int| 0 <= i < u.len() implies u[i].0 == k || (exists|j: int| 0 <= j < e.len() && e[j].0 == #[trigger] u[i].0) by {
            assert(e[i].0 == u[i].0);
        }
    } else {
        assert(u.drop_last() =~= e);
        assert forall|i: int| 0 <= i < u.len() implies u[i].0 == k || (exists|j: int| 0 <= j < e.len() && e[j].0 == #[trigger] u[i].0) by {
            if i < e.len() {
                assert(e[i].0 == u[i].0);
            }
        }
    }
}

/// Inserting twice under one key leaves what inserting the second value alone leaves.
proof fn lemma_upsert_twice<V>(e: Seq<(Seq<char>, V)>, k: Seq<char>, v1: V, v2: V)
    ensures
        upsert(upsert(e, k, v1), k, v2) == upsert(e, k, v2),
{
    lemma_key_index(e, k);
    lemma_upsert_index(e, k, v1);
    assert(upsert(upsert(e, k, v1), k, v2) =~= upsert(e, k, v2));
}

proof fn lemma_upsert_unique<V>(e: Seq<(Seq<char>, V)>, k: Seq<char>, v: V)
    requires
        keys_unique(e),
    ensures
        keys_unique(upsert(e, k, v)),
{
    lemma_key_index(e, k);
}

/// The collection and key under which a declaration is stored, if any:
/// 0 for types, 1 for constants, 2 for natives.
pub open spec fn slot(d: Declaration, crossmap: Map<u64, u64>) -> Option<(int, Seq<char>)> {
    match d {
        Declaration::Enum(e) => Some((0, e.name@)),
        Declaration::Struct(s) => Some((0, s.name@)),
        Declaration::NativeType(t) => Some((0, t.name@)),
        Declaration::Const(c) => Some((1, c.name@)),
        Declaration::Native(n) => if crossmap.contains_key(n.native_hash) {
            Some((2, native_key(crossmap[n.native_hash])))
        } else {
            None
        },
        _ => None,
    }
}

/// The type record of a declaration that goes to the types collection.
pub open spec fn type_record(d: Declaration) -> TypeDefinitionView {
    match d {
        Declaration::Enum(e) => enum_type_of(e),
        Declaration::Struct(s) => struct_type_of(s),
        Declaration::NativeType(t) => native_type_of(t),
        _ => TypeDefinitionView::NativeType { comment: None, alias_for: None },
    }
}

/// Every collection of an assembled document holds each key at most once.
pub proof fn lemma_assembled_keys_unique(decls: Seq<Declaration>, crossmap: Map<u64, u64>)
    ensures
        keys_unique(assemble(decls, crossmap).types),
        keys_unique(assemble(decls, crossmap).constants),
        keys_unique(assemble(decls, crossmap).natives),
    decreases decls.len(),
{
    if decls.len() > 0 {
        let prev = assemble(decls.drop_last(), crossmap);
        lemma_assembled_keys_unique(decls.drop_last(), crossmap);
        match decls.last() {
            Declaration::Enum(e) => lemma_upsert_unique(prev.types, e.name@, enum_type_of(e)),
            Declaration::Struct(s) => lemma_upsert_unique(prev.types, s.name@, struct_type_of(s)),
            Declaration::NativeType(t) => lemma_upsert_unique(prev.types, t.name@, native_type_of(t)),
            Declaration::Const(c) => lemma_upsert_unique(prev.constants, c.name@, const_of(c)),
            Declaration::Native(n) => if crossmap.contains_key(n.native_hash) {
                lemma_upsert_unique(prev.natives, native_key(crossmap[n.native_hash]), native_of(n));
            },
            _ => {},
        }
    }
}

/// Last write wins: when two declarations that go to the same collection
/// under the same key follow each other, the document is the one that the
/// second alone gives; the record under that key is the second's; and the
/// other two collections are those of the document before both.
pub proof fn lemma_last_write_wins(
    decls: Seq<Declaration>,
    d1: Declaration,
    d2: Declaration,
    crossmap: Map<u64, u64>,
)
    requires
        slot(d1, crossmap) is Some,
        slot(d1, crossmap) == slot(d2, crossmap),
    ensures
        assemble(decls.push(d1).push(d2), crossmap) == assemble(decls.push(d2), crossmap),
        ({
            let before = assemble(decls, crossmap);
            let after = assemble(decls.push(d1).push(d2), crossmap);
            let k = slot(d2, crossmap).unwrap().1;
            match d2 {
                Declaration::Enum(e) => lookup(after.types, k) == Some(enum_type_of(e))
                    && after.constants == before.constants && after.natives == before.natives,
                Declaration::Struct(s) => lookup(after.types, k) == Some(struct_type_of(s))
                    && after.constants == before.constants && after.natives == before.natives,
                Declaration::NativeType(t) => lookup(after.types, k) == Some(native_type_of(t))
                    && after.constants == before.constants && after.natives == before.natives,
                Declaration::Const(c) => lookup(after.constants, k) == Some(const_of(c))
                    && after.types == before.types && after.natives == before.natives,
                Declaration::Native(n) => lookup(after.natives, k) == Some(native_of(n))
                    && after.types == before.types && after.constants == before.constants,
                _ => true,
            }
        }),
{
    let s1 = decls.push(d1);
    let s2 = s1.push(d2);
    assert(s2.drop_last() == s1);
    assert(s1.drop_last() == decls);
    assert(decls.push(d2).drop_last() == decls);
    let before = assemble(decls, crossmap);
    let mid = assemble(s1, crossmap);
    let k = slot(d2, crossmap).unwrap().1;
    if slot(d2, crossmap).unwrap().0 == 0 {
        lemma_upsert_twice(before.types, k, type_record(d1), type_record(d2));
        lemma_upsert_index(mid.types, k, type_record(d2));
    } else if slot(d2, crossmap).unwrap().0 == 1 {
        if let (Declaration::Const(c1), Declaration::Const(c2)) = (d1, d2) {
            lemma_upsert_twice(before.constants, k, const_of(c1), const_of(c2));
            lemma_upsert_index(mid.constants, k, const_of(c2));
        }
    } else {
        if let (Declaration::Native(n1), Declaration::Native(n2)) = (d1, d2) {
            lemma_upsert_twice(before.natives, k, native_of(n1), native_of(n2));
            lemma_upsert_index(mid.natives, k, native_of(n2));
        }
    }
}

/// A native whose raw hash the crossmap does not know leaves the document
/// as it was.
pub proof fn lemma_unresolved_native_dropped(
    decls: Seq<Declaration>,
    n: NativeDeclaration,
    crossmap: Map<u64, u64>,
)
    requires
        !crossmap.contains_key(n.native_hash),
    ensures
        assemble(decls.push(Declaration::Native(n)), crossmap) == assemble(decls, crossmap),
{
    assert(decls.push(Declaration::Native(n)).drop_last() == decls);
}

/// Every key of the natives collection is the canonical key of a native
/// among the declarations whose raw hash the crossmap resolves.
pub proof fn lemma_native_keys_canonical(decls: Seq<Declaration>, crossmap: Map<u64, u64>)
    ensures
        forall|i: int| 0 <= i < assemble(decls, crossmap).natives.len() ==> exists|j: int|
            0 <= j < decls.len() && (#[trigger] decls[j] matches Declaration::Native(n)
                && crossmap.contains_key(n.native_hash)
                && (#[trigger] assemble(decls, crossmap).natives[i]).0 == native_key(crossmap[n.native_hash])),
    decreases decls.len(),
{
    if decls.len() > 0 {
        let p = decls.drop_last();
        lemma_native_keys_canonical(p, crossmap);
        let prev = assemble(p, crossmap).natives;
        let cur = assemble(decls, crossmap).natives;
        assert forall|j: int| 0 <= j < p.len() implies #[trigger] decls[j] == p[j] by {}
        if let Declaration::Native(n) = decls.last() {
            if crossmap.contains_key(n.native_hash) {
                let k = native_key(crossmap[n.native_hash]);
                lemma_upsert_index(prev, k, native_of(n));
                assert forall|i: int| 0 <= i < cur.len() implies exists|j: int|
                    0 <= j < decls.len() && (#[trigger] decls[j] matches Declaration::Native(m)
                        && crossmap.contains_key(m.native_hash)
                        && (#[trigger] cur[i]).0 == native_key(crossmap[m.native_hash])) by {
                    if cur[i].0 == k {
                        assert(decls[decls.len() - 1] == decls.last());
                    } else {
                        let jj = choose|jj: int| 0 <= jj < prev.len() && prev[jj].0 == cur[i].0;
                        assert(decls[p.len() as int] == decls.last());
                    }
                }
            }
        }
    }
}

/// The latest declaration for a key wins, whatever came before it: after
/// appending `d`, its collection holds `d`'s record under its key, and the
/// other two collections are as they were.
pub proof fn lemma_latest_wins(decls: Seq<Declaration>, d: Declaration, crossmap: Map<u64, u64>)
    requires
        slot(d, crossmap) is Some,
    ensures
        ({
            let before = assemble(decls, crossmap);
            let after = assemble(decls.push(d), crossmap);
            let k = slot(d, crossmap).unwrap().1;
            match d {
                Declaration::Enum(_) | Declaration::Struct(_) | Declaration::NativeType(_) =>
                    lookup(after.types, k) == Some(type_record(d)) && after.constants == before.constants
                        && after.natives == before.natives,
                Declaration::Const(c) => lookup(after.constants, k) == Some(const_of(c))
                    && after.types == before.types && after.natives == before.natives,
                Declaration::Native(n) => lookup(after.natives, k) == Some(native_of(n))
                    && after.types == before.types && after.constants == before.constants,
                _ => true,
            }
        }),
{
    assert(decls.push(d).drop_last() == decls);
    let before = assemble(decls, crossmap);
    let k = slot(d, crossmap).unwrap().1;
    match d {
        Declaration::Enum(_) | Declaration::Struct(_) | Declaration::NativeType(_) => {
            lemma_upsert_index(before.types, k, type_record(d));
        },
        Declaration::Const(c) => {
            lemma_upsert_index(before.constants, k, const_of(c));
        },
        Declaration::Native(n) => {
            lemma_upsert_index(before.natives, k, native_of(n));
        },
        _ => {},
    }
}

/// A native whose raw hash the crossmap resolves is stored under the key
/// of the canonical hash, not of the raw one.
pub proof fn lemma_resolved_native_keyed_canonically(
    decls: Seq<Declaration>,
    n: NativeDeclaration,
    crossmap: Map<u64, u64>,
)
    requires
        crossmap.contains_key(n.native_hash),
    ensures
        lookup(assemble(decls.push(Declaration::Native(n)), crossmap).natives, native_key(crossmap[n.native_hash]))
            == Some(native_of(n)),
{
    lemma_latest_wins(decls, Declaration::Native(n), crossmap);
}

} // verus!
