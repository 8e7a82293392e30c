//! Order-preserving presentation: the insertion step shared by every report
//! that returns its rows sorted on an integer key (stock, expiry day, sale
//! timestamp).  Name-ordered listings have their own lexicographic variant
//! beside each listing.

use vstd::prelude::*;

verus! {

/// Is this row one of the first `n` rows of the source table?
pub open spec fn en_tabla<T>(x: T, tabla: Seq<T>, n: int) -> bool {
    exists|i: int| 0 <= i < n && #[trigger] tabla[i] == x
}

/// Is this source row present in the listing?
pub open spec fn en_listado<T>(x: T, listado: Seq<T>) -> bool {
    exists|k: int| 0 <= k < listado.len() && #[trigger] listado[k] == x
}

/// The rows appear in non-decreasing key order.
pub open spec fn ordenada_por_clave<T>(s: Seq<T>, clave: spec_fn(T) -> int) -> bool {
    forall|k1: int, k2: int|
        0 <= k1 <= k2 < s.len() ==> clave(#[trigger] s[k1]) <= clave(#[trigger] s[k2])
}

/// One insertion step of a key-ordered listing: order, origin and presence
/// all carry over.  `pos` is the first slot whose key exceeds the new row's.
pub proof fn lema_insercion_por_clave<T>(
    antes: Seq<T>,
    despues: Seq<T>,
    tabla: Seq<T>,
    j: int,
    pos: int,
    e: T,
    clave: spec_fn(T) -> int,
)
    requires
        0 <= j < tabla.len(),
        0 <= pos <= antes.len(),
        despues == antes.insert(pos, e),
        e == tabla[j],
        ordenada_por_clave(antes, clave),
        forall|x: int| 0 <= x < pos ==> clave(#[trigger] antes[x]) <= clave(e),
        pos < antes.len() ==> clave(antes[pos]) > clave(e),
        forall|k: int| 0 <= k < antes.len() ==> #[trigger] en_tabla(antes[k], tabla, j),
        forall|m: int| 0 <= m < j ==> #[trigger] en_listado(tabla[m], antes),
    ensures
        despues.len() == antes.len() + 1,
        ordenada_por_clave(despues, clave),
        forall|k: int| 0 <= k < despues.len() ==> #[trigger] en_tabla(despues[k], tabla, j + 1),
        forall|m: int| 0 <= m < j + 1 ==> #[trigger] en_listado(tabla[m], despues),
{
    antes.insert_ensures(pos, e);
    assert(despues[pos] == e);
    assert forall|k1: int, k2: int| 0 <= k1 <= k2 < despues.len() implies clave(
        #[trigger] despues[k1],
    ) <= clave(#[trigger] despues[k2]) by {
        if k1 < pos {
            assert(despues[k1] == antes[k1]);
        }
        if k2 < pos {
            assert(despues[k2] == antes[k2]);
        }
        if k1 > pos {
            assert(despues[k1] == antes[k1 - 1]);
        }
        if k2 > pos {
            assert(despues[k2] == antes[k2 - 1]);
        }
        if k1 == pos && k2 > pos && k2 - 1 > pos {
            // The displaced row exceeds the new key, and order carries down
            // the rest of the tail.
            assert(clave(antes[pos]) <= clave(antes[k2 - 1]));
        }
    }
    assert forall|k: int| 0 <= k < despues.len() implies #[trigger] en_tabla(
        despues[k],
        tabla,
        j + 1,
    ) by {
        if k < pos {
            assert(despues[k] == antes[k]);
            assert(en_tabla(antes[k], tabla, j));
            let m = choose|m: int| 0 <= m < j && #[trigger] tabla[m] == antes[k];
            assert(tabla[m] == despues[k]);
        } else if k == pos {
            assert(tabla[j] == despues[k]);
        } else {
            assert(despues[k] == antes[k - 1]);
            assert(en_tabla(antes[k - 1], tabla, j));
            let m = choose|m: int| 0 <= m < j && #[trigger] tabla[m] == antes[k - 1];
            assert(tabla[m] == despues[k]);
        }
    }
    assert forall|m: int| 0 <= m < j + 1 implies #[trigger] en_listado(tabla[m], despues) by {
        if m == j {
            assert(despues[pos] == tabla[m]);
        } else {
            assert(en_listado(tabla[m], antes));
            let k = choose|k: int| 0 <= k < antes.len() && #[trigger] antes[k] == tabla[m];
            if k < pos {
                assert(despues[k] == tabla[m]);
            } else {
                assert(despues[k + 1] == tabla[m]);
            }
        }
    }
}

} // verus!
