//! The sale transaction coordinator: recording a cart as a durable sale and
//! reversing a recorded sale, both all-or-nothing.
//!
//! [`Almacen::registrar_venta`] turns a cart into a sale header plus one line
//! per cart entry while conditionally decrementing stock; if any line cannot
//! be covered, the whole operation aborts and the store is untouched.
//! [`Almacen::eliminar_venta`] is the inverse: it restores the stock taken by
//! each line and deletes the sale together with its lines.

use vstd::prelude::*;

use crate::almacen::{
    clonar_producto, indice_producto, indice_venta, total_detalles, Almacen,
};
use crate::models::{
    demanda, item_valido, items_validos, subtotal_item, total_items, DetalleVenta,
    DetalleVentaConProducto, ErrorAlmacen, ItemVenta, Producto, Venta, VentaConDetalles,
};
use crate::orden::{en_listado, en_tabla, lema_insercion_por_clave, ordenada_por_clave};

verus! {

// ---------------------------------------------------------------------------
// Spec: what a recorded sale looks like.
// ---------------------------------------------------------------------------

/// The sale line the coordinator builds for one cart entry.
pub open spec fn detalle_desde(it: ItemVenta, venta_id: i64, detalle_id: int) -> DetalleVenta {
    DetalleVenta {
        id: detalle_id as i64,
        venta_id: venta_id,
        producto_id: it.producto_id,
        cantidad: it.cantidad,
        precio_unitario: it.precio_unitario,
        subtotal: (it.cantidad * it.precio_unitario) as u64,
    }
}

/// The sale lines the coordinator builds for a whole cart, with consecutive
/// identities starting at `primer_id`.
pub open spec fn detalles_desde(items: Seq<ItemVenta>, venta_id: i64, primer_id: int) -> Seq<
    DetalleVenta,
> {
    Seq::new(items.len(), |k: int| detalle_desde(items[k], venta_id, primer_id + k))
}

/// Whether this cart can be recorded against this store: well-formed lines,
/// a total within the machine limit, and every product present with enough
/// stock for the cart's whole demand of it.
pub open spec fn puede_registrar(a: Almacen, items: Seq<ItemVenta>) -> bool {
    &&& items_validos(items)
    &&& total_items(items) <= u64::MAX
    &&& forall|i: int|
        0 <= i < items.len() ==> a.tiene_producto((#[trigger] items[i]).producto_id)
    &&& forall|i: int|
        0 <= i < items.len() ==> demanda(items, (#[trigger] items[i]).producto_id) <= a.stock_de(
            items[i].producto_id,
        )
}

/// The conditional decrement for the cart's entry `k` fails against store
/// `a` once the entries before it have been applied: the product is missing
/// or the demand through entry `k` exceeds its stock.
pub open spec fn item_falla(a: Almacen, items: Seq<ItemVenta>, k: int) -> bool {
    ||| !a.tiene_producto(items[k].producto_id)
    ||| demanda(items.take(k + 1), items[k].producto_id) > a.stock_de(items[k].producto_id)
}

/// Success relation of `registrar_venta`: `b` is `a` with each product's
/// stock reduced by exactly the cart's demand of it, one new sale header
/// whose total is the cart's total, and one new line per cart entry.
pub open spec fn venta_registrada(
    a: Almacen,
    items: Seq<ItemVenta>,
    fecha: i64,
    b: Almacen,
) -> bool {
    &&& b.productos@.len() == a.productos@.len()
    &&& forall|j: int|
        0 <= j < a.productos@.len() ==> (#[trigger] b.productos@[j]) == Producto {
            stock: (a.productos@[j].stock - demanda(items, a.productos@[j].id)) as u64,
            ..a.productos@[j]
        }
    &&& b.ventas@ =~= a.ventas@.push(
        Venta { id: a.siguiente_venta_id, fecha: fecha, total: total_items(items) as u64 },
    )
    &&& b.detalles@ =~= a.detalles@ + detalles_desde(
        items,
        a.siguiente_venta_id,
        a.siguiente_detalle_id as int,
    )
    &&& b.marcas@ == a.marcas@
    &&& b.usuarios@ == a.usuarios@
    &&& b.siguiente_producto_id == a.siguiente_producto_id
    &&& b.siguiente_marca_id == a.siguiente_marca_id
    &&& b.siguiente_venta_id == a.siguiente_venta_id + 1
    &&& b.siguiente_detalle_id == a.siguiente_detalle_id + items.len()
    &&& b.siguiente_usuario_id == a.siguiente_usuario_id
}

// ---------------------------------------------------------------------------
// Spec: what a reversed sale looks like.
// ---------------------------------------------------------------------------

/// Total quantity the lines of sale `venta_id` took from product `pid`.
pub open spec fn demanda_venta(detalles: Seq<DetalleVenta>, venta_id: i64, pid: i64) -> int
    decreases detalles.len(),
{
    if detalles.len() == 0 {
        0
    } else {
        demanda_venta(detalles.drop_last(), venta_id, pid) + if detalles.last().venta_id
            == venta_id && detalles.last().producto_id == pid {
            detalles.last().cantidad as int
        } else {
            0
        }
    }
}

/// The lines that remain once sale `venta_id` is deleted.
pub open spec fn sin_venta(detalles: Seq<DetalleVenta>, venta_id: i64) -> Seq<DetalleVenta>
    decreases detalles.len(),
{
    if detalles.len() == 0 {
        detalles
    } else {
        sin_venta(detalles.drop_last(), venta_id) + if detalles.last().venta_id != venta_id {
            seq![detalles.last()]
        } else {
            Seq::empty()
        }
    }
}

/// Success relation of `eliminar_venta`: `b` is `a` with each product's
/// stock restored by exactly what the sale's lines took, the sale header
/// gone and its lines gone, everything else untouched.
pub open spec fn venta_revertida(a: Almacen, venta_id: i64, b: Almacen) -> bool {
    &&& b.productos@.len() == a.productos@.len()
    &&& forall|j: int|
        0 <= j < a.productos@.len() ==> (#[trigger] b.productos@[j]) == Producto {
            stock: (a.productos@[j].stock + demanda_venta(
                a.detalles@,
                venta_id,
                a.productos@[j].id,
            )) as u64,
            ..a.productos@[j]
        }
    &&& b.ventas@ =~= a.ventas@.remove(a.indice_venta_spec(venta_id))
    &&& b.detalles@ =~= sin_venta(a.detalles@, venta_id)
    &&& b.marcas@ == a.marcas@
    &&& b.usuarios@ == a.usuarios@
    &&& b.siguiente_producto_id == a.siguiente_producto_id
    &&& b.siguiente_marca_id == a.siguiente_marca_id
    &&& b.siguiente_venta_id == a.siguiente_venta_id
    &&& b.siguiente_detalle_id == a.siguiente_detalle_id
    &&& b.siguiente_usuario_id == a.siguiente_usuario_id
}

// ---------------------------------------------------------------------------
// Arithmetic lemmas about carts.
// ---------------------------------------------------------------------------

proof fn lema_total_items_cota(items: Seq<ItemVenta>, k: int)
    requires
        0 <= k < items.len(),
    ensures
        subtotal_item(items[k]) <= total_items(items),
    decreases items.len(),
{
    crate::models::lema_total_items_no_negativo(items.drop_last());
    if k == items.len() - 1 {
        assert(items.last() == items[k]);
    } else {
        lema_total_items_cota(items.drop_last(), k);
        assert(items.drop_last()[k] == items[k]);
        assert(subtotal_item(items.last()) >= 0);
    }
}

proof fn lema_total_items_prefijo(items: Seq<ItemVenta>, k: int)
    requires
        0 <= k <= items.len(),
    ensures
        total_items(items.take(k)) <= total_items(items),
    decreases items.len() - k,
{
    if k < items.len() {
        crate::models::lema_total_items_paso(items, k);
        assert(subtotal_item(items[k]) >= 0);
        lema_total_items_prefijo(items, k + 1);
    } else {
        assert(items.take(k) =~= items);
    }
}

/// A cart that never names a product demands nothing of it.
proof fn lema_demanda_sin_item(items: Seq<ItemVenta>, pid: i64)
    requires
        forall|i: int| 0 <= i < items.len() ==> (#[trigger] items[i]).producto_id != pid,
    ensures
        demanda(items, pid) == 0,
    decreases items.len(),
{
    if items.len() > 0 {
        assert(items.last() == items[items.len() - 1]);
        assert forall|i: int|
            0 <= i < items.drop_last().len() implies (#[trigger] items.drop_last()[i]).producto_id
            != pid by {
            assert(items.drop_last()[i] == items[i]);
        }
        lema_demanda_sin_item(items.drop_last(), pid);
    }
}

// ---------------------------------------------------------------------------
// Lemmas relating built sale lines to the cart.
// ---------------------------------------------------------------------------

proof fn lema_total_detalles_desde(items: Seq<ItemVenta>, vid: i64, did: int)
    requires
        total_items(items) <= u64::MAX,
    ensures
        total_detalles(detalles_desde(items, vid, did), vid) == total_items(items),
    decreases items.len(),
{
    let d = detalles_desde(items, vid, did);
    if items.len() == 0 {
        assert(d.len() == 0);
    } else {
        assert(d.drop_last() =~= detalles_desde(items.drop_last(), vid, did));
        assert(d.last() == detalle_desde(items.last(), vid, did + items.len() - 1));
        lema_total_items_cota(items, items.len() - 1);
        crate::models::lema_total_items_no_negativo(items.drop_last());
        assert(items.last() == items[items.len() - 1]);
        assert(total_items(items.drop_last()) <= u64::MAX);
        lema_total_detalles_desde(items.drop_last(), vid, did);
        assert(subtotal_item(items.last()) <= u64::MAX);
        assert(d.last().subtotal as int == subtotal_item(items.last()));
    }
}

proof fn lema_demanda_detalles_desde(items: Seq<ItemVenta>, vid: i64, did: int, pid: i64)
    ensures
        demanda_venta(detalles_desde(items, vid, did), vid, pid) == demanda(items, pid),
    decreases items.len(),
{
    let d = detalles_desde(items, vid, did);
    if items.len() > 0 {
        assert(d.drop_last() =~= detalles_desde(items.drop_last(), vid, did));
        assert(d.last() == detalle_desde(items.last(), vid, did + items.len() - 1));
        lema_demanda_detalles_desde(items.drop_last(), vid, did, pid);
    }
}

// ---------------------------------------------------------------------------
// Additivity and separation lemmas over sale lines.
// ---------------------------------------------------------------------------

proof fn lema_total_detalles_concat(d1: Seq<DetalleVenta>, d2: Seq<DetalleVenta>, v: i64)
    ensures
        total_detalles(d1 + d2, v) == total_detalles(d1, v) + total_detalles(d2, v),
    decreases d2.len(),
{
    if d2.len() == 0 {
        assert(d1 + d2 =~= d1);
    } else {
        assert((d1 + d2).drop_last() =~= d1 + d2.drop_last());
        assert((d1 + d2).last() == d2.last());
        lema_total_detalles_concat(d1, d2.drop_last(), v);
    }
}

proof fn lema_demanda_venta_concat(d1: Seq<DetalleVenta>, d2: Seq<DetalleVenta>, v: i64, pid: i64)
    ensures
        demanda_venta(d1 + d2, v, pid) == demanda_venta(d1, v, pid) + demanda_venta(d2, v, pid),
    decreases d2.len(),
{
    if d2.len() == 0 {
        assert(d1 + d2 =~= d1);
    } else {
        assert((d1 + d2).drop_last() =~= d1 + d2.drop_last());
        assert((d1 + d2).last() == d2.last());
        lema_demanda_venta_concat(d1, d2.drop_last(), v, pid);
    }
}

proof fn lema_sin_venta_concat(d1: Seq<DetalleVenta>, d2: Seq<DetalleVenta>, v: i64)
    ensures
        sin_venta(d1 + d2, v) == sin_venta(d1, v) + sin_venta(d2, v),
    decreases d2.len(),
{
    if d2.len() == 0 {
        assert(d1 + d2 =~= d1);
        assert(sin_venta(d1, v) + sin_venta(d2, v) =~= sin_venta(d1, v));
    } else {
        assert((d1 + d2).drop_last() =~= d1 + d2.drop_last());
        assert((d1 + d2).last() == d2.last());
        lema_sin_venta_concat(d1, d2.drop_last(), v);
        if d2.last().venta_id != v {
            assert(sin_venta(d1, v) + sin_venta(d2.drop_last(), v) + seq![d2.last()] =~= sin_venta(
                d1,
                v,
            ) + (sin_venta(d2.drop_last(), v) + seq![d2.last()]));
        } else {
            assert(sin_venta(d1, v) + sin_venta(d2.drop_last(), v) + Seq::<
                DetalleVenta,
            >::empty() =~= sin_venta(d1, v) + (sin_venta(d2.drop_last(), v) + Seq::<
                DetalleVenta,
            >::empty()));
        }
    }
}

/// Lines that never name sale `v` contribute nothing to its total, demand
/// nothing under it, and survive its deletion unchanged.
proof fn lema_detalles_ajenos(d: Seq<DetalleVenta>, v: i64)
    requires
        forall|i: int| 0 <= i < d.len() ==> (#[trigger] d[i]).venta_id != v,
    ensures
        total_detalles(d, v) == 0,
        forall|pid: i64| demanda_venta(d, v, pid) == 0,
        sin_venta(d, v) == d,
    decreases d.len(),
{
    if d.len() > 0 {
        assert(d.last() == d[d.len() - 1]);
        assert forall|i: int| 0 <= i < d.drop_last().len() implies (
        #[trigger] d.drop_last()[i]).venta_id != v by {
            assert(d.drop_last()[i] == d[i]);
        }
        lema_detalles_ajenos(d.drop_last(), v);
        assert forall|pid: i64| demanda_venta(d, v, pid) == 0 by {
            assert(demanda_venta(d.drop_last(), v, pid) == 0);
        }
        assert(sin_venta(d, v) =~= d.drop_last() + seq![d.last()]);
        assert(d.drop_last() + seq![d.last()] =~= d);
    } else {
        assert(sin_venta(d, v) =~= d);
    }
}

/// Lines that all belong to sale `v` vanish when it is deleted.
proof fn lema_sin_venta_propios(d: Seq<DetalleVenta>, v: i64)
    requires
        forall|i: int| 0 <= i < d.len() ==> (#[trigger] d[i]).venta_id == v,
    ensures
        sin_venta(d, v) == Seq::<DetalleVenta>::empty(),
    decreases d.len(),
{
    if d.len() > 0 {
        assert(d.last() == d[d.len() - 1]);
        assert forall|i: int| 0 <= i < d.drop_last().len() implies (
        #[trigger] d.drop_last()[i]).venta_id == v by {
            assert(d.drop_last()[i] == d[i]);
        }
        lema_sin_venta_propios(d.drop_last(), v);
        assert(sin_venta(d, v) =~= Seq::<DetalleVenta>::empty());
    } else {
        assert(sin_venta(d, v) =~= Seq::<DetalleVenta>::empty());
    }
}

/// Deleting one sale's lines does not disturb another sale's total.
proof fn lema_total_detalles_sin_venta(d: Seq<DetalleVenta>, vid: i64, v: i64)
    requires
        v != vid,
    ensures
        total_detalles(sin_venta(d, vid), v) == total_detalles(d, v),
    decreases d.len(),
{
    if d.len() > 0 {
        lema_total_detalles_sin_venta(d.drop_last(), vid, v);
        if d.last().venta_id != vid {
            lema_total_detalles_concat(sin_venta(d.drop_last(), vid), seq![d.last()], v);
            let s1 = seq![d.last()];
            assert(s1.last() == d.last());
            assert(s1.drop_last() =~= Seq::<DetalleVenta>::empty());
            assert(total_detalles(Seq::<DetalleVenta>::empty(), v) == 0);
            assert(total_detalles(s1.drop_last(), v) == 0);
            assert(total_detalles(s1, v) == if d.last().venta_id == v {
                d.last().subtotal as int
            } else {
                0
            });
        } else {
            assert(sin_venta(d, vid) =~= sin_venta(d.drop_last(), vid));
            assert(d.last().venta_id != v);
        }
    }
}

/// A line of another sale is still there after the deletion.
proof fn lema_sin_venta_conserva(d: Seq<DetalleVenta>, vid: i64, j: int)
    requires
        0 <= j < d.len(),
        d[j].venta_id != vid,
    ensures
        exists|k: int| 0 <= k < sin_venta(d, vid).len() && sin_venta(d, vid)[k] == d[j],
    decreases d.len(),
{
    if j == d.len() - 1 {
        assert(d.last() == d[j]);
        let s = sin_venta(d, vid);
        assert(s == sin_venta(d.drop_last(), vid) + seq![d.last()]);
        assert(s[s.len() - 1] == d[j]);
    } else {
        assert(d.drop_last()[j] == d[j]);
        lema_sin_venta_conserva(d.drop_last(), vid, j);
        let k = choose|k: int|
            0 <= k < sin_venta(d.drop_last(), vid).len() && sin_venta(d.drop_last(), vid)[k]
                == d.drop_last()[j];
        assert(sin_venta(d, vid)[k] == d[j]);
    }
}

// ---------------------------------------------------------------------------
// Recording a sale.
// ---------------------------------------------------------------------------

impl Almacen {
    /// Record a cart as one atomic sale: insert the header with the cart's
    /// total, insert one line per entry, and conditionally decrement stock
    /// for each entry.  If any entry is invalid, the total would overflow,
    /// or any decrement fails, the whole operation aborts and the store is
    /// exactly as it was; `StockInsuficiente` names the product of the first
    /// entry whose decrement failed.  This is the single path by which a
    /// sale reduces stock.
    #[verifier::loop_isolation(false)]
    pub fn registrar_venta(&mut self, items: &Vec<ItemVenta>, fecha: i64) -> (r: Result<
        i64,
        ErrorAlmacen,
    >)
        requires
            old(self).inv(),
            old(self).siguiente_venta_id < i64::MAX,
            old(self).siguiente_detalle_id + items@.len() <= i64::MAX,
        ensures
            final(self).inv(),
            r is Ok <==> puede_registrar(*old(self), items@),
            r matches Ok(vid) ==> vid == old(self).siguiente_venta_id && venta_registrada(
                *old(self),
                items@,
                fecha,
                *final(self),
            ),
            r is Err ==> crate::productos::iguales(*old(self), *final(self)),
            (r == Result::<i64, ErrorAlmacen>::Err(ErrorAlmacen::ItemInvalido)) <==> !items_validos(
                items@,
            ),
            (r == Result::<i64, ErrorAlmacen>::Err(ErrorAlmacen::TotalExcedido)) <==> (
            items_validos(items@) && total_items(items@) > u64::MAX),
            r matches Err(e) ==> (e == ErrorAlmacen::ItemInvalido || e == ErrorAlmacen::TotalExcedido
                || e matches ErrorAlmacen::StockInsuficiente(_)),
            r matches Err(ErrorAlmacen::StockInsuficiente(pid)) ==> exists|k: int|
                0 <= k < items@.len() && (#[trigger] items@[k]).producto_id == pid && item_falla(
                    *old(self),
                    items@,
                    k,
                ) && forall|i: int| 0 <= i < k ==> !item_falla(*old(self), items@, i),
    {
        let n = items.len();
        // Validity of every line, before anything is touched.
        if n == 0 {
            return Err(ErrorAlmacen::ItemInvalido);
        }
        let mut k: usize = 0;
        while k < n
            invariant
                k <= n,
                forall|i: int| 0 <= i < k ==> item_valido(#[trigger] items@[i]),
            decreases n - k,
        {
            if items[k].cantidad == 0 {
                return Err(ErrorAlmacen::ItemInvalido);
            }
            k += 1;
        }
        assert(items_validos(items@));
        // The exact total, refused if it cannot be held in cents.
        let mut total: u64 = 0;
        let mut subtotales: Vec<u64> = Vec::new();
        let mut k: usize = 0;
        proof {
            assert(items@.take(0) =~= Seq::<ItemVenta>::empty());
        }
        while k < n
            invariant
                k <= n,
                subtotales@.len() == k,
                forall|i: int|
                    0 <= i < k ==> (#[trigger] subtotales@[i]) as int == subtotal_item(items@[i]),
                total as int == total_items(items@.take(k as int)),
            decreases n - k,
        {
            let it = items[k];
            let sub = match it.cantidad.checked_mul(it.precio_unitario) {
                Some(s) => s,
                None => {
                    proof {
                        lema_total_items_cota(items@, k as int);
                    }
                    return Err(ErrorAlmacen::TotalExcedido);
                },
            };
            let t = match total.checked_add(sub) {
                Some(t) => t,
                None => {
                    proof {
                        crate::models::lema_total_items_paso(items@, k as int);
                        lema_total_items_prefijo(items@, k as int + 1);
                    }
                    return Err(ErrorAlmacen::TotalExcedido);
                },
            };
            proof {
                crate::models::lema_total_items_paso(items@, k as int);
            }
            subtotales.push(sub);
            total = t;
            k += 1;
        }
        proof {
            assert(items@.take(n as int) =~= items@);
        }
        // Conditional decrements against a working copy: nothing of the
        // store itself changes until every line has been covered.
        let vid = self.siguiente_venta_id;
        let did0 = self.siguiente_detalle_id;
        let mut nuevos = self.copia_productos();
        let mut nuevos_detalles: Vec<DetalleVenta> = Vec::new();
        let mut k: usize = 0;
        proof {
            assert(items@.take(0) =~= Seq::<ItemVenta>::empty());
            assert forall|j: int| 0 <= j < nuevos@.len() implies #[trigger] nuevos@[j] == Producto {
                stock: (old(self).productos@[j].stock - demanda(
                    items@.take(0),
                    old(self).productos@[j].id,
                )) as u64,
                ..old(self).productos@[j]
            } by {
                assert(demanda(items@.take(0), old(self).productos@[j].id) == 0);
            }
        }
        while k < n
            invariant
                k <= n,
                nuevos@.len() == old(self).productos@.len(),
                forall|j: int|
                    0 <= j < nuevos@.len() ==> demanda(
                        items@.take(k as int),
                        (#[trigger] old(self).productos@[j]).id,
                    ) <= old(self).productos@[j].stock,
                forall|j: int|
                    0 <= j < nuevos@.len() ==> #[trigger] nuevos@[j] == (Producto {
                        stock: (old(self).productos@[j].stock - demanda(
                            items@.take(k as int),
                            old(self).productos@[j].id,
                        )) as u64,
                        ..old(self).productos@[j]
                    }),
                forall|i: int| 0 <= i < k ==> !item_falla(*old(self), items@, i),
                nuevos_detalles@ =~= detalles_desde(items@.take(k as int), vid, did0 as int),
            decreases n - k,
        {
            let it = items[k];
            let pid = it.producto_id;
            match indice_producto(&nuevos, pid) {
                None => {
                    proof {
                        if old(self).tiene_producto(pid) {
                            let j = choose|j: int|
                                0 <= j < old(self).productos@.len() && (#[trigger] old(
                                    self,
                                ).productos@[j]).id == pid;
                            assert(nuevos@[j].id == pid);
                        }
                        assert(item_falla(*old(self), items@, k as int));
                        assert(!puede_registrar(*old(self), items@));
                    }
                    return Err(ErrorAlmacen::StockInsuficiente(pid));
                },
                Some(j) => {
                    proof {
                        assert(nuevos@[j as int].id == old(self).productos@[j as int].id);
                        old(self).lema_indice_producto(j as int);
                        crate::models::lema_demanda_paso(items@, k as int, pid);
                        crate::models::lema_demanda_no_negativa(items@.take(k as int), pid);
                    }
                    if nuevos[j].stock < it.cantidad {
                        proof {
                            assert(old(self).stock_de(pid) == old(self).productos@[j as int].stock);
                            assert(demanda(items@.take(k as int + 1), pid) > old(self).stock_de(
                                pid,
                            ));
                            assert(item_falla(*old(self), items@, k as int));
                            assert forall|i: int|
                                0 <= i < items@.len() && demanda(items@, (
                                #[trigger] items@[i]).producto_id) <= old(self).stock_de(
                                    items@[i].producto_id,
                                ) implies !(items@[i].producto_id == pid) by {
                                if items@[i].producto_id == pid {
                                    crate::models::lema_demanda_prefijo(items@, k as int + 1, pid);
                                }
                            }
                            assert(!puede_registrar(*old(self), items@)) by {
                                if puede_registrar(*old(self), items@) {
                                    assert(items@[k as int].producto_id == pid);
                                }
                            }
                        }
                        return Err(ErrorAlmacen::StockInsuficiente(pid));
                    }
                    let viejo = clonar_producto(&nuevos[j]);
                    let restante = viejo.stock - it.cantidad;
                    let p = Producto { stock: restante, ..viejo };
                    nuevos.set(j, p);
                    let did = did0 + k as i64;
                    let nd = DetalleVenta {
                        id: did,
                        venta_id: vid,
                        producto_id: pid,
                        cantidad: it.cantidad,
                        precio_unitario: it.precio_unitario,
                        subtotal: subtotales[k],
                    };
                    nuevos_detalles.push(nd);
                    proof {
                        assert(!item_falla(*old(self), items@, k as int));
                        assert forall|j2: int| 0 <= j2 < nuevos@.len() implies demanda(
                            items@.take(k as int + 1),
                            (#[trigger] old(self).productos@[j2]).id,
                        ) <= old(self).productos@[j2].stock by {
                            crate::models::lema_demanda_paso(
                                items@,
                                k as int,
                                old(self).productos@[j2].id,
                            );
                        }
                        assert forall|j2: int| 0 <= j2 < nuevos@.len() implies #[trigger] nuevos@[j2]
                            == Producto {
                            stock: (old(self).productos@[j2].stock - demanda(
                                items@.take(k as int + 1),
                                old(self).productos@[j2].id,
                            )) as u64,
                            ..old(self).productos@[j2]
                        } by {
                            crate::models::lema_demanda_paso(
                                items@,
                                k as int,
                                old(self).productos@[j2].id,
                            );
                            if j2 != j as int {
                                assert(old(self).productos@[j2].id != pid);
                            }
                        }
                        assert(items@.take(k as int + 1) =~= items@.take(k as int).push(
                            items@[k as int],
                        ));
                        assert(nuevos_detalles@ =~= detalles_desde(
                            items@.take(k as int + 1),
                            vid,
                            did0 as int,
                        )) by {
                            assert(subtotales@[k as int] as int == subtotal_item(items@[k as int]));
                            assert(detalles_desde(items@.take(k as int + 1), vid, did0 as int)
                                =~= detalles_desde(items@.take(k as int), vid, did0 as int).push(
                                detalle_desde(items@[k as int], vid, did0 + k as int),
                            ));
                        }
                    }
                    k += 1;
                },
            }
        }
        proof {
            assert(items@.take(n as int) =~= items@);
        }
        // Commit: every decrement succeeded, so the whole unit becomes
        // durable at once.
        let nueva_venta = Venta { id: vid, fecha: fecha, total: total };
        self.productos = nuevos;
        self.ventas.push(nueva_venta);
        self.detalles.append(&mut nuevos_detalles);
        self.siguiente_venta_id = vid + 1;
        self.siguiente_detalle_id = did0 + n as i64;
        proof {
            lema_registro_correcto(*old(self), items@, fecha, *self, total, subtotales@);
        }
        Ok(vid)
    }
}

/// Commit-time reasoning for `registrar_venta`: the built store satisfies
/// the success relation, the feasibility predicate held, and the invariant
/// is preserved.
proof fn lema_registro_correcto(
    a: Almacen,
    items: Seq<ItemVenta>,
    fecha: i64,
    b: Almacen,
    total: u64,
    subtotales: Seq<u64>,
)
    requires
        a.inv(),
        a.siguiente_venta_id < i64::MAX,
        a.siguiente_detalle_id + items.len() <= i64::MAX,
        items_validos(items),
        total as int == total_items(items),
        subtotales.len() == items.len(),
        forall|i: int| 0 <= i < items.len() ==> (#[trigger] subtotales[i]) as int == subtotal_item(
            items[i],
        ),
        forall|j: int|
            0 <= j < a.productos@.len() ==> demanda(items, (#[trigger] a.productos@[j]).id)
                <= a.productos@[j].stock,
        forall|i: int| 0 <= i < items.len() ==> !item_falla(a, items, i),
        b.productos@.len() == a.productos@.len(),
        forall|j: int|
            0 <= j < a.productos@.len() ==> #[trigger] b.productos@[j] == (Producto {
                stock: (a.productos@[j].stock - demanda(items, a.productos@[j].id)) as u64,
                ..a.productos@[j]
            }),
        b.ventas@ =~= a.ventas@.push(
            (Venta { id: a.siguiente_venta_id, fecha: fecha, total: total }),
        ),
        b.detalles@ =~= a.detalles@ + detalles_desde(
            items,
            a.siguiente_venta_id,
            a.siguiente_detalle_id as int,
        ),
        b.marcas@ == a.marcas@,
        b.usuarios@ == a.usuarios@,
        b.siguiente_producto_id == a.siguiente_producto_id,
        b.siguiente_marca_id == a.siguiente_marca_id,
        b.siguiente_venta_id == a.siguiente_venta_id + 1,
        b.siguiente_detalle_id == a.siguiente_detalle_id + items.len(),
        b.siguiente_usuario_id == a.siguiente_usuario_id,
    ensures
        b.inv(),
        puede_registrar(a, items),
        venta_registrada(a, items, fecha, b),
{
    let vid = a.siguiente_venta_id;
    let did0 = a.siguiente_detalle_id as int;
    let nd = detalles_desde(items, vid, did0);
    // Feasibility: every line names a product that exists with stock for the
    // cart's whole demand of it.
    assert forall|i: int| 0 <= i < items.len() implies a.tiene_producto(
        (#[trigger] items[i]).producto_id,
    ) by {
        assert(!item_falla(a, items, i));
    }
    assert forall|i: int| 0 <= i < items.len() implies demanda(
        items,
        (#[trigger] items[i]).producto_id,
    ) <= a.stock_de(items[i].producto_id) by {
        let pid = items[i].producto_id;
        let j = a.indice_producto_spec(pid);
        assert(0 <= j < a.productos@.len() && a.productos@[j].id == pid);
    }
    assert(total_items(items) <= u64::MAX);
    assert(puede_registrar(a, items));
    assert(venta_registrada(a, items, fecha, b));
    // The invariant of the committed store.
    assert forall|j: int| 0 <= j < b.productos@.len() implies (#[trigger] b.productos@[j]).id
        == a.productos@[j].id && b.productos@[j].codigo == a.productos@[j].codigo && b.productos@[
        j
    ].marca_id == a.productos@[j].marca_id by {}
    assert forall|x: i64| a.tiene_producto(x) implies b.tiene_producto(x) by {
        let j = choose|j: int|
            0 <= j < a.productos@.len() && (#[trigger] a.productos@[j]).id == x;
        assert(b.productos@[j].id == x);
    }
    assert forall|x: i64| a.tiene_marca(x) implies b.tiene_marca(x) by {
        let j = choose|j: int| 0 <= j < a.marcas@.len() && (#[trigger] a.marcas@[j]).id == x;
        assert(b.marcas@[j].id == x);
    }
    assert forall|x: i64| a.tiene_venta(x) implies b.tiene_venta(x) by {
        let j = choose|j: int| 0 <= j < a.ventas@.len() && (#[trigger] a.ventas@[j]).id == x;
        assert(b.ventas@[j].id == x);
    }
    // Every old sale id is below the new sale's id.
    assert forall|i: int| 0 <= i < a.ventas@.len() implies (#[trigger] a.ventas@[i]).id < vid by {}
    // Old lines never name the new sale.
    assert forall|i: int| 0 <= i < a.detalles@.len() implies (#[trigger] a.detalles@[i]).venta_id
        != vid by {
        let x = a.detalles@[i].venta_id;
        assert(a.tiene_venta(x));
        let j = choose|j: int| 0 <= j < a.ventas@.len() && (#[trigger] a.ventas@[j]).id == x;
        assert(a.ventas@[j].id < vid);
    }
    // New lines all name the new sale, with fresh consecutive ids.
    assert forall|i: int| 0 <= i < nd.len() implies (#[trigger] nd[i]).venta_id == vid && nd[i].id
        == did0 + i && nd[i].cantidad > 0 && (nd[i].subtotal as int) == (nd[i].cantidad as int) * (
    nd[i].precio_unitario as int) && a.tiene_producto(nd[i].producto_id) by {
        assert(nd[i] == detalle_desde(items[i], vid, did0 + i));
        assert(item_valido(items[i]));
        lema_total_items_cota(items, i);
        assert(subtotal_item(items[i]) <= u64::MAX);
        assert(!item_falla(a, items, i));
    }
    assert(b.ids_unicos());
    assert(b.ids_acotados());
    assert(b.unicidad_textos());
    assert forall|i: int| 0 <= i < b.detalles@.len() implies b.tiene_venta(
        (#[trigger] b.detalles@[i]).venta_id,
    ) && b.tiene_producto(b.detalles@[i].producto_id) by {
        if i < a.detalles@.len() {
            assert(b.detalles@[i] == a.detalles@[i]);
        } else {
            assert(b.detalles@[i] == nd[i - a.detalles@.len()]);
            assert(b.ventas@[a.ventas@.len() as int].id == vid);
        }
    }
    assert(b.referencias_validas());
    // Sale integrity: old totals undisturbed, the new sale's total exact.
    lema_total_detalles_concat(a.detalles@, nd, vid);
    lema_detalles_ajenos(a.detalles@, vid);
    lema_total_detalles_desde(items, vid, did0);
    assert forall|i: int| 0 <= i < b.ventas@.len() implies ((#[trigger] b.ventas@[i]).total as int)
        == total_detalles(b.detalles@, b.ventas@[i].id) by {
        lema_total_detalles_concat(a.detalles@, nd, b.ventas@[i].id);
        if i < a.ventas@.len() {
            assert(b.ventas@[i] == a.ventas@[i]);
            assert forall|m: int| 0 <= m < nd.len() implies (#[trigger] nd[m]).venta_id
                != a.ventas@[i].id by {
                assert(a.ventas@[i].id < vid);
            }
            lema_detalles_ajenos(nd, a.ventas@[i].id);
        } else {
            assert(b.ventas@[i] == Venta { id: vid, fecha: fecha, total: total });
        }
    }
    assert forall|i: int| 0 <= i < b.ventas@.len() implies b.venta_tiene_detalle(
        (#[trigger] b.ventas@[i]).id,
    ) by {
        if i < a.ventas@.len() {
            assert(a.venta_tiene_detalle(a.ventas@[i].id));
            let j = choose|j: int|
                0 <= j < a.detalles@.len() && (#[trigger] a.detalles@[j]).venta_id
                    == a.ventas@[i].id;
            assert(b.detalles@[j].venta_id == b.ventas@[i].id);
        } else {
            assert(b.detalles@[a.detalles@.len() as int].venta_id == vid);
        }
    }
    assert(b.ventas_integras());
}

// ---------------------------------------------------------------------------
// Reversing a sale.
// ---------------------------------------------------------------------------

proof fn lema_demanda_venta_paso(detalles: Seq<DetalleVenta>, m: int, v: i64, pid: i64)
    requires
        0 <= m < detalles.len(),
    ensures
        demanda_venta(detalles.take(m + 1), v, pid) == demanda_venta(detalles.take(m), v, pid)
            + if detalles[m].venta_id == v && detalles[m].producto_id == pid {
            detalles[m].cantidad as int
        } else {
            0
        },
{
    assert(detalles.take(m + 1).drop_last() =~= detalles.take(m));
    assert(detalles.take(m + 1).last() == detalles[m]);
}

proof fn lema_demanda_venta_no_negativa(detalles: Seq<DetalleVenta>, v: i64, pid: i64)
    ensures
        demanda_venta(detalles, v, pid) >= 0,
    decreases detalles.len(),
{
    if detalles.len() > 0 {
        lema_demanda_venta_no_negativa(detalles.drop_last(), v, pid);
    }
}

proof fn lema_demanda_venta_prefijo(detalles: Seq<DetalleVenta>, m: int, v: i64, pid: i64)
    requires
        0 <= m <= detalles.len(),
    ensures
        demanda_venta(detalles.take(m), v, pid) <= demanda_venta(detalles, v, pid),
    decreases detalles.len() - m,
{
    if m < detalles.len() {
        lema_demanda_venta_paso(detalles, m, v, pid);
        lema_demanda_venta_prefijo(detalles, m + 1, v, pid);
    } else {
        assert(detalles.take(m) =~= detalles);
    }
}

proof fn lema_sin_venta_paso(detalles: Seq<DetalleVenta>, m: int, v: i64)
    requires
        0 <= m < detalles.len(),
    ensures
        sin_venta(detalles.take(m + 1), v) == sin_venta(detalles.take(m), v)
            + if detalles[m].venta_id != v {
            seq![detalles[m]]
        } else {
            Seq::<DetalleVenta>::empty()
        },
{
    assert(detalles.take(m + 1).drop_last() =~= detalles.take(m));
    assert(detalles.take(m + 1).last() == detalles[m]);
}

/// Deleting a sale's lines keeps the remaining line identities pairwise
/// distinct.
proof fn lema_sin_venta_ids_unicos(d: Seq<DetalleVenta>, vid: i64)
    requires
        forall|i: int, j: int| 0 <= i < j < d.len() ==> (#[trigger] d[i]).id != (#[trigger] d[j]).id,
    ensures
        forall|i: int, j: int|
            0 <= i < j < sin_venta(d, vid).len() ==> (#[trigger] sin_venta(d, vid)[i]).id != (
            #[trigger] sin_venta(d, vid)[j]).id,
    decreases d.len(),
{
    if d.len() > 0 {
        let s0 = sin_venta(d.drop_last(), vid);
        assert forall|i: int, j: int| 0 <= i < j < d.drop_last().len() implies (
        #[trigger] d.drop_last()[i]).id != (#[trigger] d.drop_last()[j]).id by {
            assert(d.drop_last()[i] == d[i]);
            assert(d.drop_last()[j] == d[j]);
        }
        lema_sin_venta_ids_unicos(d.drop_last(), vid);
        lema_sin_venta_origen(d.drop_last(), vid);
        assert forall|i: int, j: int| 0 <= i < j < sin_venta(d, vid).len() implies (
        #[trigger] sin_venta(d, vid)[i]).id != (#[trigger] sin_venta(d, vid)[j]).id by {
            if j < s0.len() {
                assert(sin_venta(d, vid)[i] == s0[i]);
                assert(sin_venta(d, vid)[j] == s0[j]);
            } else {
                assert(d.last().venta_id != vid);
                assert(sin_venta(d, vid)[j] == d.last());
                assert(sin_venta(d, vid)[i] == s0[i]);
                let oi = choose|oi: int|
                    0 <= oi < d.drop_last().len() && d.drop_last()[oi] == s0[i];
                assert(d[oi] == s0[i]);
                assert(d[oi].id != d[d.len() - 1].id);
            }
        }
    }
}

impl Almacen {
    /// With unique ids, any index holding `id` is the spec-level index.
    pub proof fn lema_indice_venta(self, i: int)
        requires
            self.ids_unicos(),
            0 <= i < self.ventas@.len(),
        ensures
            self.tiene_venta(self.ventas@[i].id),
            self.indice_venta_spec(self.ventas@[i].id) == i,
    {
        let id = self.ventas@[i].id;
        assert(self.tiene_venta(id));
        let j = self.indice_venta_spec(id);
        if i < j {
            assert(self.ventas@[i].id != self.ventas@[j].id);
        } else if j < i {
            assert(self.ventas@[j].id != self.ventas@[i].id);
        }
    }

    /// Reverse one recorded sale: restore each product's stock by exactly
    /// what the sale's lines took, then delete the header together with its
    /// lines, all as one unit.  Reversing an unknown sale id reports
    /// `VentaNoEncontrada` and has no side effect; if restoring stock would
    /// push a counter past its machine limit, nothing changes either.
    #[verifier::loop_isolation(false)]
    pub fn eliminar_venta(&mut self, venta_id: i64) -> (r: Result<bool, ErrorAlmacen>)
        requires
            old(self).inv(),
        ensures
            final(self).inv(),
            r is Ok <==> (old(self).tiene_venta(venta_id) && forall|j: int|
                0 <= j < old(self).productos@.len() ==> (#[trigger] old(
                    self,
                ).productos@[j]).stock + demanda_venta(
                    old(self).detalles@,
                    venta_id,
                    old(self).productos@[j].id,
                ) <= u64::MAX),
            r matches Ok(exito) ==> exito == true && venta_revertida(
                *old(self),
                venta_id,
                *final(self),
            ),
            r is Err ==> crate::productos::iguales(*old(self), *final(self)),
            (r == Result::<bool, ErrorAlmacen>::Err(ErrorAlmacen::VentaNoEncontrada)) <==> !old(
                self,
            ).tiene_venta(venta_id),
            r matches Err(e) ==> (e == ErrorAlmacen::VentaNoEncontrada || e
                == ErrorAlmacen::StockExcedido),
    {
        let idx_v = match indice_venta(&self.ventas, venta_id) {
            Some(i) => i,
            None => {
                return Err(ErrorAlmacen::VentaNoEncontrada);
            },
        };
        proof {
            self.lema_indice_venta(idx_v as int);
        }
        // Restore stock on a working copy; the store itself is untouched
        // until every restoration is known to fit.
        let mut nuevos = self.copia_productos();
        let total_lineas = self.detalles.len();
        let mut m: usize = 0;
        proof {
            assert(old(self).detalles@.take(0) =~= Seq::<DetalleVenta>::empty());
            assert forall|j: int| 0 <= j < nuevos@.len() implies #[trigger] nuevos@[j] == (Producto {
                stock: (old(self).productos@[j].stock + demanda_venta(
                    old(self).detalles@.take(0),
                    venta_id,
                    old(self).productos@[j].id,
                )) as u64,
                ..old(self).productos@[j]
            }) by {
                assert(demanda_venta(old(self).detalles@.take(0), venta_id, old(
                    self,
                ).productos@[j].id) == 0);
            }
        }
        while m < total_lineas
            invariant
                m <= total_lineas,
                total_lineas == old(self).detalles@.len(),
                nuevos@.len() == old(self).productos@.len(),
                forall|j: int|
                    0 <= j < nuevos@.len() ==> (#[trigger] old(self).productos@[j]).stock
                        + demanda_venta(
                        old(self).detalles@.take(m as int),
                        venta_id,
                        old(self).productos@[j].id,
                    ) <= u64::MAX,
                forall|j: int|
                    0 <= j < nuevos@.len() ==> #[trigger] nuevos@[j] == (Producto {
                        stock: (old(self).productos@[j].stock + demanda_venta(
                            old(self).detalles@.take(m as int),
                            venta_id,
                            old(self).productos@[j].id,
                        )) as u64,
                        ..old(self).productos@[j]
                    }),
            decreases total_lineas - m,
        {
            let d = self.detalles[m];
            if d.venta_id == venta_id {
                match indice_producto(&nuevos, d.producto_id) {
                    Some(j) => {
                        proof {
                            assert(nuevos@[j as int].id == old(self).productos@[j as int].id);
                            old(self).lema_indice_producto(j as int);
                            lema_demanda_venta_no_negativa(
                                old(self).detalles@.take(m as int),
                                venta_id,
                                d.producto_id,
                            );
                        }
                        match nuevos[j].stock.checked_add(d.cantidad) {
                            Some(restaurado) => {
                                let viejo = clonar_producto(&nuevos[j]);
                                let p = Producto { stock: restaurado, ..viejo };
                                nuevos.set(j, p);
                                proof {
                                    assert forall|j2: int| 0 <= j2 < nuevos@.len() implies (
                                    #[trigger] old(self).productos@[j2]).stock + demanda_venta(
                                        old(self).detalles@.take(m as int + 1),
                                        venta_id,
                                        old(self).productos@[j2].id,
                                    ) <= u64::MAX by {
                                        lema_demanda_venta_paso(
                                            old(self).detalles@,
                                            m as int,
                                            venta_id,
                                            old(self).productos@[j2].id,
                                        );
                                        if j2 != j as int {
                                            assert(old(self).productos@[j2].id != d.producto_id);
                                        }
                                    }
                                    assert forall|j2: int| 0 <= j2 < nuevos@.len() implies
                                        #[trigger] nuevos@[j2] == (Producto {
                                        stock: (old(self).productos@[j2].stock + demanda_venta(
                                            old(self).detalles@.take(m as int + 1),
                                            venta_id,
                                            old(self).productos@[j2].id,
                                        )) as u64,
                                        ..old(self).productos@[j2]
                                    }) by {
                                        lema_demanda_venta_paso(
                                            old(self).detalles@,
                                            m as int,
                                            venta_id,
                                            old(self).productos@[j2].id,
                                        );
                                        if j2 != j as int {
                                            assert(old(self).productos@[j2].id != d.producto_id);
                                        }
                                    }
                                }
                            },
                            None => {
                                proof {
                                    let jj = j as int;
                                    lema_demanda_venta_paso(
                                        old(self).detalles@,
                                        m as int,
                                        venta_id,
                                        d.producto_id,
                                    );
                                    lema_demanda_venta_prefijo(
                                        old(self).detalles@,
                                        m as int + 1,
                                        venta_id,
                                        d.producto_id,
                                    );
                                    assert(old(self).productos@[jj].stock + demanda_venta(
                                        old(self).detalles@,
                                        venta_id,
                                        old(self).productos@[jj].id,
                                    ) > u64::MAX);
                                }
                                return Err(ErrorAlmacen::StockExcedido);
                            },
                        }
                    },
                    None => {
                        proof {
                            assert(old(self).tiene_producto(d.producto_id));
                            let j = choose|j: int|
                                0 <= j < old(self).productos@.len() && (#[trigger] old(
                                    self,
                                ).productos@[j]).id == d.producto_id;
                            assert(nuevos@[j].id == d.producto_id);
                            assert(false);
                        }
                        return Err(ErrorAlmacen::StockExcedido);
                    },
                }
            } else {
                proof {
                    assert forall|j2: int| 0 <= j2 < nuevos@.len() implies #[trigger] nuevos@[j2]
                        == (Producto {
                        stock: (old(self).productos@[j2].stock + demanda_venta(
                            old(self).detalles@.take(m as int + 1),
                            venta_id,
                            old(self).productos@[j2].id,
                        )) as u64,
                        ..old(self).productos@[j2]
                    }) by {
                        lema_demanda_venta_paso(
                            old(self).detalles@,
                            m as int,
                            venta_id,
                            old(self).productos@[j2].id,
                        );
                    }
                    assert forall|j2: int| 0 <= j2 < nuevos@.len() implies (#[trigger] old(
                        self,
                    ).productos@[j2]).stock + demanda_venta(
                        old(self).detalles@.take(m as int + 1),
                        venta_id,
                        old(self).productos@[j2].id,
                    ) <= u64::MAX by {
                        lema_demanda_venta_paso(
                            old(self).detalles@,
                            m as int,
                            venta_id,
                            old(self).productos@[j2].id,
                        );
                    }
                }
            }
            m += 1;
        }
        proof {
            assert(old(self).detalles@.take(total_lineas as int) =~= old(self).detalles@);
        }
        // Keep only the lines of other sales.
        let mut restantes: Vec<DetalleVenta> = Vec::new();
        let mut m: usize = 0;
        proof {
            assert(sin_venta(old(self).detalles@.take(0), venta_id) =~= Seq::<
                DetalleVenta,
            >::empty());
        }
        while m < total_lineas
            invariant
                m <= total_lineas,
                total_lineas == old(self).detalles@.len(),
                restantes@ =~= sin_venta(old(self).detalles@.take(m as int), venta_id),
            decreases total_lineas - m,
        {
            let d = self.detalles[m];
            proof {
                lema_sin_venta_paso(old(self).detalles@, m as int, venta_id);
            }
            if d.venta_id != venta_id {
                restantes.push(d);
            }
            m += 1;
        }
        proof {
            assert(old(self).detalles@.take(total_lineas as int) =~= old(self).detalles@);
        }
        // Commit the whole reversal at once.
        self.productos = nuevos;
        self.detalles = restantes;
        self.ventas.remove(idx_v);
        proof {
            lema_reverso_correcto(*old(self), venta_id, *self, idx_v as int);
        }
        Ok(true)
    }
}

/// Commit-time reasoning for `eliminar_venta`: the built store satisfies the
/// reversal relation and the invariant is preserved.
proof fn lema_reverso_correcto(a: Almacen, venta_id: i64, b: Almacen, idx_v: int)
    requires
        a.inv(),
        0 <= idx_v < a.ventas@.len(),
        a.ventas@[idx_v].id == venta_id,
        a.indice_venta_spec(venta_id) == idx_v,
        b.productos@.len() == a.productos@.len(),
        forall|j: int|
            0 <= j < a.productos@.len() ==> #[trigger] b.productos@[j] == (Producto {
                stock: (a.productos@[j].stock + demanda_venta(
                    a.detalles@,
                    venta_id,
                    a.productos@[j].id,
                )) as u64,
                ..a.productos@[j]
            }),
        b.ventas@ =~= a.ventas@.remove(idx_v),
        b.detalles@ =~= sin_venta(a.detalles@, venta_id),
        b.marcas@ == a.marcas@,
        b.usuarios@ == a.usuarios@,
        b.siguiente_producto_id == a.siguiente_producto_id,
        b.siguiente_marca_id == a.siguiente_marca_id,
        b.siguiente_venta_id == a.siguiente_venta_id,
        b.siguiente_detalle_id == a.siguiente_detalle_id,
        b.siguiente_usuario_id == a.siguiente_usuario_id,
    ensures
        b.inv(),
        venta_revertida(a, venta_id, b),
{
    assert(venta_revertida(a, venta_id, b));
    lema_sin_venta_origen(a.detalles@, venta_id);
    lema_sin_venta_ids_unicos(a.detalles@, venta_id);
    // Indices of the shrunk sale table map back to the old one.
    assert forall|i: int| 0 <= i < b.ventas@.len() implies #[trigger] b.ventas@[i] == a.ventas@[
        if i < idx_v {
            i
        } else {
            i + 1
        }
    ] && a.ventas@[
        if i < idx_v {
            i
        } else {
            i + 1
        }
    ].id != venta_id by {
        let oi: int = if i < idx_v {
            i
        } else {
            i + 1
        };
        assert(b.ventas@[i] == a.ventas@[oi]);
        if oi != idx_v {
            if oi < idx_v {
                assert(a.ventas@[oi].id != a.ventas@[idx_v].id);
            } else {
                assert(a.ventas@[idx_v].id != a.ventas@[oi].id);
            }
        }
    }
    assert forall|j: int| 0 <= j < b.productos@.len() implies (#[trigger] b.productos@[j]).id
        == a.productos@[j].id && b.productos@[j].codigo == a.productos@[j].codigo
        && b.productos@[j].marca_id == a.productos@[j].marca_id by {}
    assert forall|x: i64| a.tiene_producto(x) implies b.tiene_producto(x) by {
        let j = choose|j: int|
            0 <= j < a.productos@.len() && (#[trigger] a.productos@[j]).id == x;
        assert(b.productos@[j].id == x);
    }
    assert forall|x: i64| a.tiene_marca(x) implies b.tiene_marca(x) by {
        let j = choose|j: int| 0 <= j < a.marcas@.len() && (#[trigger] a.marcas@[j]).id == x;
        assert(b.marcas@[j].id == x);
    }
    // A sale other than the deleted one is still present.
    assert forall|x: i64| a.tiene_venta(x) && x != venta_id implies b.tiene_venta(x) by {
        let w = choose|w: int| 0 <= w < a.ventas@.len() && (#[trigger] a.ventas@[w]).id == x;
        if w < idx_v {
            assert(b.ventas@[w].id == x);
        } else {
            if w == idx_v {
                assert(a.ventas@[idx_v].id == venta_id);
            }
            assert(b.ventas@[w - 1].id == x);
        }
    }
    assert(b.ids_unicos());
    assert(b.ids_acotados());
    assert(b.unicidad_textos());
    assert forall|i: int| 0 <= i < b.detalles@.len() implies b.tiene_venta(
        (#[trigger] b.detalles@[i]).venta_id,
    ) && b.tiene_producto(b.detalles@[i].producto_id) by {
        let j = choose|j: int| 0 <= j < a.detalles@.len() && a.detalles@[j] == b.detalles@[i];
        assert(a.tiene_venta(b.detalles@[i].venta_id));
        assert(b.detalles@[i].venta_id != venta_id);
        assert(a.tiene_producto(b.detalles@[i].producto_id));
    }
    assert(b.referencias_validas());
    // Remaining sales keep their exact totals and at least one line.
    assert forall|i: int| 0 <= i < b.ventas@.len() implies ((#[trigger] b.ventas@[i]).total as int)
        == total_detalles(b.detalles@, b.ventas@[i].id) by {
        lema_total_detalles_sin_venta(a.detalles@, venta_id, b.ventas@[i].id);
    }
    assert forall|i: int| 0 <= i < b.ventas@.len() implies b.venta_tiene_detalle(
        (#[trigger] b.ventas@[i]).id,
    ) by {
        assert(a.venta_tiene_detalle(b.ventas@[i].id));
        let j = choose|j: int|
            0 <= j < a.detalles@.len() && (#[trigger] a.detalles@[j]).venta_id == b.ventas@[i].id;
        lema_sin_venta_conserva(a.detalles@, venta_id, j);
        let k = choose|k: int|
            0 <= k < sin_venta(a.detalles@, venta_id).len() && sin_venta(a.detalles@, venta_id)[k]
                == a.detalles@[j];
        assert(b.detalles@[k].venta_id == b.ventas@[i].id);
    }
    assert(b.ventas_integras());
}

// ---------------------------------------------------------------------------
// Read paths over sales.
// ---------------------------------------------------------------------------

/// The lines belonging to one sale, in stored order.
pub open spec fn propios_venta(detalles: Seq<DetalleVenta>, venta_id: i64) -> Seq<DetalleVenta>
    decreases detalles.len(),
{
    if detalles.len() == 0 {
        detalles
    } else {
        propios_venta(detalles.drop_last(), venta_id) + if detalles.last().venta_id == venta_id {
            seq![detalles.last()]
        } else {
            Seq::empty()
        }
    }
}

proof fn lema_propios_venta_paso(detalles: Seq<DetalleVenta>, m: int, v: i64)
    requires
        0 <= m < detalles.len(),
    ensures
        propios_venta(detalles.take(m + 1), v) == propios_venta(detalles.take(m), v)
            + if detalles[m].venta_id == v {
            seq![detalles[m]]
        } else {
            Seq::<DetalleVenta>::empty()
        },
{
    assert(detalles.take(m + 1).drop_last() =~= detalles.take(m));
    assert(detalles.take(m + 1).last() == detalles[m]);
}

/// Sales whose timestamp falls in a closed range: how many, and the sum of
/// their totals.
pub open spec fn cuenta_rango(ventas: Seq<Venta>, desde: i64, hasta: i64) -> int
    decreases ventas.len(),
{
    if ventas.len() == 0 {
        0
    } else {
        cuenta_rango(ventas.drop_last(), desde, hasta) + if desde <= ventas.last().fecha
            && ventas.last().fecha <= hasta {
            1int
        } else {
            0int
        }
    }
}

pub open spec fn suma_rango(ventas: Seq<Venta>, desde: i64, hasta: i64) -> int
    decreases ventas.len(),
{
    if ventas.len() == 0 {
        0
    } else {
        suma_rango(ventas.drop_last(), desde, hasta) + if desde <= ventas.last().fecha
            && ventas.last().fecha <= hasta {
            ventas.last().total as int
        } else {
            0
        }
    }
}

impl Almacen {
    /// The whole sale table, the newest sale first: the result holds exactly
    /// the stored sales, sorted by descending timestamp (ties keep their
    /// stored order).
    #[verifier::loop_isolation(false)]
    #[verifier::spinoff_prover]
    pub fn obtener_ventas(&self) -> (r: Vec<Venta>)
        ensures
            r@.len() == self.ventas@.len(),
            forall|k1: int, k2: int|
                0 <= k1 <= k2 < r@.len() ==> (#[trigger] r@[k1]).fecha >= (#[trigger] r@[k2]).fecha,
            forall|k: int|
                0 <= k < r@.len() ==> #[trigger] en_tabla(
                    r@[k],
                    self.ventas@,
                    self.ventas@.len() as int,
                ),
            forall|m: int|
                0 <= m < self.ventas@.len() ==> #[trigger] en_listado(self.ventas@[m], r@),
    {
        let ghost clave = |v: Venta| -(v.fecha as int);
        let total = self.ventas.len();
        let mut r: Vec<Venta> = Vec::new();
        let mut j: usize = 0;
        while j < total
            invariant
                j <= total,
                total == self.ventas@.len(),
                r@.len() == j,
                ordenada_por_clave(r@, clave),
                forall|k: int| 0 <= k < r@.len() ==> #[trigger] en_tabla(r@[k], self.ventas@, j as int),
                forall|m: int| 0 <= m < j ==> #[trigger] en_listado(self.ventas@[m], r@),
            decreases total - j,
        {
            let e = self.ventas[j];
            let mut pos: usize = 0;
            while pos < r.len() && r[pos].fecha >= e.fecha
                invariant
                    pos <= r@.len(),
                    forall|x: int| 0 <= x < pos ==> clave(#[trigger] r@[x]) <= clave(e),
                decreases r@.len() - pos,
            {
                pos += 1;
            }
            let ghost antes = r@;
            r.insert(pos, e);
            proof {
                lema_insercion_por_clave(
                    antes,
                    r@,
                    self.ventas@,
                    j as int,
                    pos as int,
                    self.ventas@[j as int],
                    clave,
                );
            }
            j += 1;
        }
        proof {
            assert forall|k1: int, k2: int| 0 <= k1 <= k2 < r@.len() implies (
            #[trigger] r@[k1]).fecha >= (#[trigger] r@[k2]).fecha by {
                assert(clave(r@[k1]) <= clave(r@[k2]));
            }
        }
        r
    }

    /// The lines of one sale, each joined with its product's current name.
    #[verifier::loop_isolation(false)]
    pub fn obtener_detalles_venta(&self, venta_id: i64) -> (r: Vec<DetalleVentaConProducto>)
        requires
            self.inv(),
        ensures
            r@.len() == propios_venta(self.detalles@, venta_id).len(),
            forall|k: int|
                0 <= k < r@.len() ==> {
                    let d = propios_venta(self.detalles@, venta_id)[k];
                    &&& (#[trigger] r@[k]).id == d.id
                    &&& r@[k].venta_id == d.venta_id
                    &&& r@[k].producto_id == d.producto_id
                    &&& r@[k].cantidad == d.cantidad
                    &&& r@[k].precio_unitario == d.precio_unitario
                    &&& r@[k].subtotal == d.subtotal
                    &&& r@[k].nombre_producto@ == self.producto_de(d.producto_id).nombre@
                },
    {
        let total = self.detalles.len();
        let mut r: Vec<DetalleVentaConProducto> = Vec::new();
        let mut m: usize = 0;
        proof {
            assert(propios_venta(self.detalles@.take(0), venta_id) =~= Seq::<
                DetalleVenta,
            >::empty());
        }
        while m < total
            invariant
                m <= total,
                total == self.detalles@.len(),
                r@.len() == propios_venta(self.detalles@.take(m as int), venta_id).len(),
                forall|k: int|
                    0 <= k < r@.len() ==> {
                        let d = propios_venta(self.detalles@.take(m as int), venta_id)[k];
                        &&& (#[trigger] r@[k]).id == d.id
                        &&& r@[k].venta_id == d.venta_id
                        &&& r@[k].producto_id == d.producto_id
                        &&& r@[k].cantidad == d.cantidad
                        &&& r@[k].precio_unitario == d.precio_unitario
                        &&& r@[k].subtotal == d.subtotal
                        &&& r@[k].nombre_producto@ == self.producto_de(d.producto_id).nombre@
                    },
            decreases total - m,
        {
            proof {
                lema_propios_venta_paso(self.detalles@, m as int, venta_id);
            }
            let d = self.detalles[m];
            if d.venta_id == venta_id {
                proof {
                    assert(self.tiene_producto(d.producto_id));
                }
                match indice_producto(&self.productos, d.producto_id) {
                    Some(j) => {
                        proof {
                            self.lema_indice_producto(j as int);
                        }
                        let fila = DetalleVentaConProducto {
                            id: d.id,
                            venta_id: d.venta_id,
                            producto_id: d.producto_id,
                            nombre_producto: self.productos[j].nombre.clone(),
                            cantidad: d.cantidad,
                            precio_unitario: d.precio_unitario,
                            subtotal: d.subtotal,
                        };
                        r.push(fila);
                    },
                    None => {
                        proof {
                            let w = choose|w: int|
                                0 <= w < self.productos@.len() && (
                                #[trigger] self.productos@[w]).id == d.producto_id;
                            assert(false);
                        }
                    },
                }
            }
            m += 1;
        }
        proof {
            assert(self.detalles@.take(total as int) =~= self.detalles@);
        }
        r
    }

    /// One sale with all of its lines, or nothing if the id is unknown.
    pub fn obtener_venta_con_detalles(&self, venta_id: i64) -> (r: Option<VentaConDetalles>)
        requires
            self.inv(),
        ensures
            r is Some <==> self.tiene_venta(venta_id),
            r matches Some(vc) ==> vc.venta == self.venta_de(venta_id) && vc.detalles@.len()
                == propios_venta(self.detalles@, venta_id).len() && forall|k: int|
                0 <= k < vc.detalles@.len() ==> {
                    let d = propios_venta(self.detalles@, venta_id)[k];
                    &&& (#[trigger] vc.detalles@[k]).id == d.id
                    &&& vc.detalles@[k].venta_id == d.venta_id
                    &&& vc.detalles@[k].producto_id == d.producto_id
                    &&& vc.detalles@[k].cantidad == d.cantidad
                    &&& vc.detalles@[k].precio_unitario == d.precio_unitario
                    &&& vc.detalles@[k].subtotal == d.subtotal
                    &&& vc.detalles@[k].nombre_producto@ == self.producto_de(d.producto_id).nombre@
                },
    {
        let idx = match indice_venta(&self.ventas, venta_id) {
            Some(i) => i,
            None => {
                return None;
            },
        };
        proof {
            self.lema_indice_venta(idx as int);
        }
        let venta = self.ventas[idx];
        let detalles = self.obtener_detalles_venta(venta_id);
        Some(VentaConDetalles { venta: venta, detalles: detalles })
    }

    /// Sales statistics over a closed timestamp range: how many sales, and
    /// the exact sum of their totals.
    #[verifier::loop_isolation(false)]
    pub fn obtener_estadisticas_ventas(&self, desde: i64, hasta: i64) -> (r: (u64, u128))
        ensures
            r.0 as int == cuenta_rango(self.ventas@, desde, hasta),
            r.1 as int == suma_rango(self.ventas@, desde, hasta),
    {
        let total = self.ventas.len();
        let mut cuenta: u64 = 0;
        let mut suma: u128 = 0;
        let mut k: usize = 0;
        proof {
            assert(self.ventas@.take(0) =~= Seq::<Venta>::empty());
        }
        while k < total
            invariant
                k <= total,
                total == self.ventas@.len(),
                cuenta as int == cuenta_rango(self.ventas@.take(k as int), desde, hasta),
                suma as int == suma_rango(self.ventas@.take(k as int), desde, hasta),
                cuenta <= k,
                suma <= (k as int) * (u64::MAX as int),
            decreases total - k,
        {
            proof {
                assert(self.ventas@.take(k as int + 1).drop_last() =~= self.ventas@.take(k as int));
                assert(self.ventas@.take(k as int + 1).last() == self.ventas@[k as int]);
                assert((k as int + 1) * (u64::MAX as int) == (k as int) * (u64::MAX as int) + (
                u64::MAX as int)) by (nonlinear_arith);
                assert((total as int) * (u64::MAX as int) <= (usize::MAX as int) * (
                u64::MAX as int)) by (nonlinear_arith)
                    requires
                        total as int <= usize::MAX as int,
                ;
                assert((usize::MAX as int) * (u64::MAX as int) < u128::MAX as int);
            }
            let v = self.ventas[k];
            if desde <= v.fecha && v.fecha <= hasta {
                cuenta = cuenta + 1;
                suma = suma + v.total as u128;
            }
            k += 1;
        }
        proof {
            assert(self.ventas@.take(total as int) =~= self.ventas@);
        }
        (cuenta, suma)
    }
}

// ---------------------------------------------------------------------------
// Best sellers.
// ---------------------------------------------------------------------------

/// Revenue one product earned over all sale lines, in cents.
pub open spec fn ingreso_detalles(detalles: Seq<DetalleVenta>, pid: i64) -> int
    decreases detalles.len(),
{
    if detalles.len() == 0 {
        0
    } else {
        ingreso_detalles(detalles.drop_last(), pid) + if detalles.last().producto_id == pid {
            detalles.last().subtotal as int
        } else {
            0
        }
    }
}

/// One row of the best-sellers report at spec level: identity, name, units
/// sold, revenue.
pub open spec fn entrada_vendido(p: Producto, detalles: Seq<DetalleVenta>) -> (
    i64,
    Seq<char>,
    int,
    int,
) {
    (
        p.id,
        p.nombre@,
        crate::almacen::demanda_detalles(detalles, p.id),
        ingreso_detalles(detalles, p.id),
    )
}

/// The products that sold at all, in stored order, with their aggregates.
pub open spec fn lista_vendidos(productos: Seq<Producto>, detalles: Seq<DetalleVenta>) -> Seq<
    (i64, Seq<char>, int, int),
>
    decreases productos.len(),
{
    if productos.len() == 0 {
        Seq::empty()
    } else {
        lista_vendidos(productos.drop_last(), detalles) + if crate::almacen::demanda_detalles(
            detalles,
            productos.last().id,
        ) > 0 {
            seq![entrada_vendido(productos.last(), detalles)]
        } else {
            Seq::empty()
        }
    }
}

/// An executable report row carries exactly one spec-level row.
pub open spec fn entrada_corresponde(
    e: (i64, String, u128, u128),
    t: (i64, Seq<char>, int, int),
) -> bool {
    e.0 == t.0 && e.1@ == t.1 && e.2 as int == t.2 && e.3 as int == t.3
}

proof fn lema_demanda_detalles_paso(detalles: Seq<DetalleVenta>, m: int, pid: i64)
    requires
        0 <= m < detalles.len(),
    ensures
        crate::almacen::demanda_detalles(detalles.take(m + 1), pid)
            == crate::almacen::demanda_detalles(detalles.take(m), pid) + if detalles[m].producto_id
            == pid {
            detalles[m].cantidad as int
        } else {
            0
        },
        ingreso_detalles(detalles.take(m + 1), pid) == ingreso_detalles(detalles.take(m), pid)
            + if detalles[m].producto_id == pid {
            detalles[m].subtotal as int
        } else {
            0
        },
{
    assert(detalles.take(m + 1).drop_last() =~= detalles.take(m));
    assert(detalles.take(m + 1).last() == detalles[m]);
}

proof fn lema_lista_vendidos_paso(productos: Seq<Producto>, detalles: Seq<DetalleVenta>, j: int)
    requires
        0 <= j < productos.len(),
    ensures
        lista_vendidos(productos.take(j + 1), detalles) == lista_vendidos(
            productos.take(j),
            detalles,
        ) + if crate::almacen::demanda_detalles(detalles, productos[j].id) > 0 {
            seq![entrada_vendido(productos[j], detalles)]
        } else {
            Seq::<(i64, Seq<char>, int, int)>::empty()
        },
{
    assert(productos.take(j + 1).drop_last() =~= productos.take(j));
    assert(productos.take(j + 1).last() == productos[j]);
}

/// Sum the units and revenue one product moved, over all sale lines.
#[verifier::loop_isolation(false)]
fn agregados_de(detalles: &Vec<DetalleVenta>, pid: i64) -> (r: (u128, u128))
    ensures
        r.0 as int == crate::almacen::demanda_detalles(detalles@, pid),
        r.1 as int == ingreso_detalles(detalles@, pid),
{
    let total = detalles.len();
    let mut unidades: u128 = 0;
    let mut ingreso: u128 = 0;
    let mut m: usize = 0;
    proof {
        assert(detalles@.take(0) =~= Seq::<DetalleVenta>::empty());
    }
    while m < total
        invariant
            m <= total,
            total == detalles@.len(),
            unidades as int == crate::almacen::demanda_detalles(detalles@.take(m as int), pid),
            ingreso as int == ingreso_detalles(detalles@.take(m as int), pid),
            unidades <= (m as int) * (u64::MAX as int),
            ingreso <= (m as int) * (u64::MAX as int),
        decreases total - m,
    {
        proof {
            lema_demanda_detalles_paso(detalles@, m as int, pid);
            assert((m as int + 1) * (u64::MAX as int) == (m as int) * (u64::MAX as int) + (
            u64::MAX as int)) by (nonlinear_arith);
            assert((total as int) * (u64::MAX as int) <= (usize::MAX as int) * (u64::MAX as int))
                by (nonlinear_arith)
                requires
                    total as int <= usize::MAX as int,
            ;
            assert((usize::MAX as int) * (u64::MAX as int) < u128::MAX as int);
        }
        let d = detalles[m];
        if d.producto_id == pid {
            unidades = unidades + d.cantidad as u128;
            ingreso = ingreso + d.subtotal as u128;
        }
        m += 1;
    }
    proof {
        assert(detalles@.take(total as int) =~= detalles@);
    }
    (unidades, ingreso)
}

/// Does this report row carry one of the first `n` aggregate rows?
pub open spec fn tiene_origen(
    fila: (i64, String, u128, u128),
    agg: Seq<(i64, String, u128, u128)>,
    n: int,
) -> bool {
    exists|m: int| 0 <= m < n && #[trigger] iguales_entradas(fila, agg[m])
}

/// Does this report row carry some row of the aggregate list?
pub open spec fn fila_del_informe(
    fila: (i64, String, u128, u128),
    lista: Seq<(i64, Seq<char>, int, int)>,
) -> bool {
    exists|m: int| 0 <= m < lista.len() && #[trigger] entrada_corresponde(fila, lista[m])
}

/// Is this aggregate row carried by some row of the report?
pub open spec fn esta_presente(
    ent: (i64, String, u128, u128),
    orden: Seq<(i64, String, u128, u128)>,
) -> bool {
    exists|k: int| 0 <= k < orden.len() && #[trigger] iguales_entradas(orden[k], ent)
}

impl Almacen {
    /// Best sellers: every product that sold at all, with its exact units
    /// sold and revenue, ordered by units sold (largest first, ties kept in
    /// stored product order) and cut to `limite` rows.  Every product left
    /// out sold no more units than any row kept.
    #[verifier::loop_isolation(false)]
    #[verifier::rlimit(100)]
    #[verifier::spinoff_prover]
    pub fn obtener_productos_mas_vendidos(&self, limite: usize) -> (r: Vec<
        (i64, String, u128, u128),
    >)
        requires
            self.inv(),
        ensures
            r@.len() == (if (limite as int) <= lista_vendidos(self.productos@, self.detalles@).len() {
                limite as int
            } else {
                lista_vendidos(self.productos@, self.detalles@).len() as int
            }),
            forall|k1: int, k2: int|
                0 <= k1 <= k2 < r@.len() ==> (#[trigger] r@[k1]).2 >= (#[trigger] r@[k2]).2,
            forall|k: int|
                0 <= k < r@.len() ==> #[trigger] fila_del_informe(
                    r@[k],
                    lista_vendidos(self.productos@, self.detalles@),
                ),
            forall|k1: int, k2: int|
                0 <= k1 < k2 < r@.len() ==> (#[trigger] r@[k1]).0 != (#[trigger] r@[k2]).0,
            forall|j: int|
                (0 <= j < self.productos@.len() && crate::almacen::demanda_detalles(
                    self.detalles@,
                    (#[trigger] self.productos@[j]).id,
                ) > 0 && !(exists|k: int|
                    0 <= k < r@.len() && (#[trigger] r@[k]).0 == self.productos@[j].id)) ==> forall|
                    k: int,
                |
                    0 <= k < r@.len() ==> (#[trigger] r@[k]).2 >= crate::almacen::demanda_detalles(
                        self.detalles@,
                        self.productos@[j].id,
                    ),
    {
        let ghost lista = lista_vendidos(self.productos@, self.detalles@);
        // Aggregate, in stored product order.
        let total = self.productos.len();
        let mut agg: Vec<(i64, String, u128, u128)> = Vec::new();
        let mut j: usize = 0;
        proof {
            assert(self.productos@.take(0) =~= Seq::<Producto>::empty());
        }
        while j < total
            invariant
                j <= total,
                total == self.productos@.len(),
                agg@.len() == lista_vendidos(self.productos@.take(j as int), self.detalles@).len(),
                forall|k: int|
                    0 <= k < agg@.len() ==> entrada_corresponde(
                        #[trigger] agg@[k],
                        lista_vendidos(self.productos@.take(j as int), self.detalles@)[k],
                    ),
            decreases total - j,
        {
            proof {
                lema_lista_vendidos_paso(self.productos@, self.detalles@, j as int);
            }
            let p = &self.productos[j];
            let (unidades, ingreso) = agregados_de(&self.detalles, p.id);
            if unidades > 0 {
                agg.push((p.id, p.nombre.clone(), unidades, ingreso));
            }
            j += 1;
        }
        proof {
            assert(self.productos@.take(total as int) =~= self.productos@);
            assert(agg@.len() == lista.len());
            lema_lista_vendidos_fiel(self.productos@, self.detalles@);
            assert forall|m1: int, m2: int| 0 <= m1 < m2 < agg@.len() implies (
            #[trigger] agg@[m1]).0 != (#[trigger] agg@[m2]).0 by {
                assert(entrada_corresponde(agg@[m1], lista[m1]));
                assert(entrada_corresponde(agg@[m2], lista[m2]));
            }
        }
        // Insertion sort, descending by units sold; a tie goes after what is
        // already placed, keeping stored order.
        let na = agg.len();
        let mut orden: Vec<(i64, String, u128, u128)> = Vec::new();
        let mut i: usize = 0;
        while i < na
            invariant
                i <= na,
                na == agg@.len(),
                orden@.len() == i,
                forall|k1: int, k2: int|
                    0 <= k1 <= k2 < orden@.len() ==> (#[trigger] orden@[k1]).2 >= (
                    #[trigger] orden@[k2]).2,
                forall|k: int|
                    0 <= k < orden@.len() ==> #[trigger] tiene_origen(orden@[k], agg@, i as int),
                forall|m: int| 0 <= m < i ==> #[trigger] esta_presente(agg@[m], orden@),
                forall|k1: int, k2: int|
                    0 <= k1 < k2 < orden@.len() ==> (#[trigger] orden@[k1]).0 != (
                    #[trigger] orden@[k2]).0,
            decreases na - i,
        {
            let e = &agg[i];
            let mut pos: usize = 0;
            while pos < orden.len() && orden[pos].2 >= e.2
                invariant
                    pos <= orden@.len(),
                    forall|x: int| 0 <= x < pos ==> (#[trigger] orden@[x]).2 >= e.2,
                decreases orden@.len() - pos,
            {
                pos += 1;
            }
            let ghost antes = orden@;
            let copia = (e.0, e.1.clone(), e.2, e.3);
            orden.insert(pos, copia);
            proof {
                assert(iguales_entradas(copia, agg@[i as int]));
                lema_paso_insercion(antes, orden@, agg@, i as int, pos as int, copia);
            }
            i += 1;
        }
        // Cut to the requested number of rows.
        let ghost ordenado = orden@;
        if orden.len() > limite {
            orden.truncate(limite);
            proof {
                assert(orden@ =~= ordenado.take(limite as int));
            }
        }
        proof {
            assert(agg@.len() == lista.len());
            assert forall|k: int| 0 <= k < agg@.len() implies entrada_corresponde(
                #[trigger] agg@[k],
                lista[k],
            ) by {
                assert(entrada_corresponde(
                    agg@[k],
                    lista_vendidos(self.productos@.take(total as int), self.detalles@)[k],
                ));
            }
            if ordenado.len() > limite as int {
                assert(orden@ == ordenado.take(limite as int));
            } else {
                assert(orden@ == ordenado);
            }
            lema_mas_vendidos_final(*self, lista, agg@, ordenado, orden@, limite as int);
        }
        orden
    }
}

/// Executable report rows that carry the same spec-level content.
pub open spec fn iguales_entradas(a: (i64, String, u128, u128), b: (i64, String, u128, u128)) -> bool {
    a.0 == b.0 && a.1@ == b.1@ && a.2 == b.2 && a.3 == b.3
}

/// The aggregate list is faithful to the product table: one row per product
/// that sold, with distinct identities, and a row for every product that
/// sold.
proof fn lema_lista_vendidos_fiel(productos: Seq<Producto>, detalles: Seq<DetalleVenta>)
    requires
        forall|i: int, j: int|
            0 <= i < j < productos.len() ==> (#[trigger] productos[i]).id != (
            #[trigger] productos[j]).id,
    ensures
        forall|m: int|
            0 <= m < lista_vendidos(productos, detalles).len() ==> exists|j: int|
                0 <= j < productos.len() && #[trigger] lista_vendidos(productos, detalles)[m]
                    == entrada_vendido(productos[j], detalles) && crate::almacen::demanda_detalles(
                    detalles,
                    productos[j].id,
                ) > 0,
        forall|m1: int, m2: int|
            0 <= m1 < m2 < lista_vendidos(productos, detalles).len() ==> (
            #[trigger] lista_vendidos(productos, detalles)[m1]).0 != (#[trigger] lista_vendidos(
                productos,
                detalles,
            )[m2]).0,
        forall|j: int|
            0 <= j < productos.len() && crate::almacen::demanda_detalles(
                detalles,
                (#[trigger] productos[j]).id,
            ) > 0 ==> exists|m: int|
                0 <= m < lista_vendidos(productos, detalles).len() && lista_vendidos(
                    productos,
                    detalles,
                )[m] == entrada_vendido(productos[j], detalles),
    decreases productos.len(),
{
    if productos.len() > 0 {
        let s0 = productos.drop_last();
        let l = lista_vendidos(productos, detalles);
        let l0 = lista_vendidos(s0, detalles);
        assert forall|i: int, j: int| 0 <= i < j < s0.len() implies (#[trigger] s0[i]).id != (
        #[trigger] s0[j]).id by {
            assert(s0[i] == productos[i]);
            assert(s0[j] == productos[j]);
        }
        lema_lista_vendidos_fiel(s0, detalles);
        assert(productos.last() == productos[productos.len() - 1]);
        assert forall|m: int| 0 <= m < l.len() implies exists|j: int|
            0 <= j < productos.len() && #[trigger] l[m] == entrada_vendido(productos[j], detalles)
                && crate::almacen::demanda_detalles(detalles, productos[j].id) > 0 by {
            if m < l0.len() {
                assert(l[m] == l0[m]);
                let j = choose|j: int|
                    0 <= j < s0.len() && #[trigger] l0[m] == entrada_vendido(s0[j], detalles)
                        && crate::almacen::demanda_detalles(detalles, s0[j].id) > 0;
                assert(s0[j] == productos[j]);
                assert(l[m] == entrada_vendido(productos[j], detalles));
            } else {
                assert(l[m] == entrada_vendido(productos[productos.len() - 1], detalles));
            }
        }
        assert forall|m1: int, m2: int| 0 <= m1 < m2 < l.len() implies (#[trigger] l[m1]).0 != (
        #[trigger] l[m2]).0 by {
            if m2 < l0.len() {
                assert(l[m1] == l0[m1]);
                assert(l[m2] == l0[m2]);
            } else {
                assert(l[m2] == entrada_vendido(productos.last(), detalles));
                assert(l[m1] == l0[m1]);
                let j = choose|j: int|
                    0 <= j < s0.len() && #[trigger] l0[m1] == entrada_vendido(s0[j], detalles)
                        && crate::almacen::demanda_detalles(detalles, s0[j].id) > 0;
                assert(productos[j].id != productos[productos.len() - 1].id);
            }
        }
        assert forall|j: int|
            0 <= j < productos.len() && crate::almacen::demanda_detalles(
                detalles,
                (#[trigger] productos[j]).id,
            ) > 0 implies exists|m: int|
            0 <= m < l.len() && l[m] == entrada_vendido(productos[j], detalles) by {
            if j < s0.len() {
                assert(s0[j] == productos[j]);
                let m = choose|m: int|
                    0 <= m < l0.len() && l0[m] == entrada_vendido(s0[j], detalles);
                assert(l[m] == entrada_vendido(productos[j], detalles));
            } else {
                assert(l[l.len() - 1] == entrada_vendido(productos[j], detalles));
            }
        }
    }
}

/// One insertion step of the descending sort: sortedness, the two-way
/// matching with the aggregate rows, and distinct identities all carry over.
proof fn lema_paso_insercion(
    antes: Seq<(i64, String, u128, u128)>,
    despues: Seq<(i64, String, u128, u128)>,
    agg: Seq<(i64, String, u128, u128)>,
    i: int,
    pos: int,
    e: (i64, String, u128, u128),
)
    requires
        0 <= i < agg.len(),
        0 <= pos <= antes.len(),
        despues == antes.insert(pos, e),
        iguales_entradas(e, agg[i]),
        forall|k1: int, k2: int|
            0 <= k1 <= k2 < antes.len() ==> (#[trigger] antes[k1]).2 >= (#[trigger] antes[k2]).2,
        forall|x: int| 0 <= x < pos ==> (#[trigger] antes[x]).2 >= e.2,
        pos < antes.len() ==> antes[pos].2 < e.2,
        forall|k: int| 0 <= k < antes.len() ==> #[trigger] tiene_origen(antes[k], agg, i),
        forall|m: int| 0 <= m < i ==> #[trigger] esta_presente(agg[m], antes),
        forall|k1: int, k2: int|
            0 <= k1 < k2 < antes.len() ==> (#[trigger] antes[k1]).0 != (#[trigger] antes[k2]).0,
        forall|m1: int, m2: int|
            0 <= m1 < m2 < agg.len() ==> (#[trigger] agg[m1]).0 != (#[trigger] agg[m2]).0,
    ensures
        despues.len() == antes.len() + 1,
        forall|k1: int, k2: int|
            0 <= k1 <= k2 < despues.len() ==> (#[trigger] despues[k1]).2 >= (
            #[trigger] despues[k2]).2,
        forall|k: int| 0 <= k < despues.len() ==> #[trigger] tiene_origen(despues[k], agg, i + 1),
        forall|m: int| 0 <= m < i + 1 ==> #[trigger] esta_presente(agg[m], despues),
        forall|k1: int, k2: int|
            0 <= k1 < k2 < despues.len() ==> (#[trigger] despues[k1]).0 != (
            #[trigger] despues[k2]).0,
{
    antes.insert_ensures(pos, e);
    assert(despues[pos] == e);
    assert forall|k1: int, k2: int| 0 <= k1 <= k2 < despues.len() implies (
    #[trigger] despues[k1]).2 >= (#[trigger] despues[k2]).2 by {
        if k1 < pos {
            assert(despues[k1] == antes[k1]);
        }
        if k2 < pos {
            assert(despues[k2] == antes[k2]);
        }
        if k1 > pos {
            assert(despues[k1] == antes[k1 - 1]);
        }
        if k2 > pos {
            assert(despues[k2] == antes[k2 - 1]);
            if k2 - 1 >= pos && pos < antes.len() {
                assert(antes[pos].2 >= antes[k2 - 1].2);
            }
        }
    }
    assert forall|k: int| 0 <= k < despues.len() implies #[trigger] tiene_origen(
        despues[k],
        agg,
        i + 1,
    ) by {
        if k < pos {
            assert(despues[k] == antes[k]);
            assert(tiene_origen(antes[k], agg, i));
            let m = choose|m: int| 0 <= m < i && #[trigger] iguales_entradas(antes[k], agg[m]);
            assert(iguales_entradas(despues[k], agg[m]));
        } else if k == pos {
            assert(iguales_entradas(despues[k], agg[i]));
        } else {
            assert(despues[k] == antes[k - 1]);
            assert(tiene_origen(antes[k - 1], agg, i));
            let m = choose|m: int|
                0 <= m < i && #[trigger] iguales_entradas(antes[k - 1], agg[m]);
            assert(iguales_entradas(despues[k], agg[m]));
        }
    }
    assert forall|m: int| 0 <= m < i + 1 implies #[trigger] esta_presente(agg[m], despues) by {
        if m == i {
            assert(iguales_entradas(despues[pos], agg[m]));
        } else {
            assert(esta_presente(agg[m], antes));
            let k = choose|k: int|
                0 <= k < antes.len() && #[trigger] iguales_entradas(antes[k], agg[m]);
            if k < pos {
                assert(despues[k] == antes[k]);
                assert(iguales_entradas(despues[k], agg[m]));
            } else {
                assert(despues[k + 1] == antes[k]);
                assert(iguales_entradas(despues[k + 1], agg[m]));
            }
        }
    }
    assert forall|k1: int, k2: int| 0 <= k1 < k2 < despues.len() implies (
    #[trigger] despues[k1]).0 != (#[trigger] despues[k2]).0 by {
        if k1 != pos && k2 != pos {
            let o1: int = if k1 < pos {
                k1
            } else {
                k1 - 1
            };
            let o2: int = if k2 < pos {
                k2
            } else {
                k2 - 1
            };
            assert(despues[k1] == antes[o1]);
            assert(despues[k2] == antes[o2]);
        } else {
            let ke: int = if k1 == pos {
                k2
            } else {
                k1
            };
            let oe: int = if ke < pos {
                ke
            } else {
                ke - 1
            };
            assert(despues[ke] == antes[oe]);
            assert(tiene_origen(antes[oe], agg, i));
            let m = choose|m: int|
                0 <= m < i && #[trigger] iguales_entradas(antes[oe], agg[m]);
            assert(agg[m].0 != agg[i].0);
            assert(despues[pos].0 == agg[i].0);
        }
    }
}

/// Commit-time reasoning for the best-sellers report: carrying the sorted
/// permutation through the cut yields the contract.
#[verifier::rlimit(60)]
proof fn lema_mas_vendidos_final(
    a: Almacen,
    lista: Seq<(i64, Seq<char>, int, int)>,
    agg: Seq<(i64, String, u128, u128)>,
    ordenado: Seq<(i64, String, u128, u128)>,
    corte: Seq<(i64, String, u128, u128)>,
    limite: int,
)
    requires
        a.inv(),
        limite >= 0,
        lista == lista_vendidos(a.productos@, a.detalles@),
        agg.len() == lista.len(),
        forall|k: int|
            0 <= k < agg.len() ==> entrada_corresponde(#[trigger] agg[k], lista[k]),
        ordenado.len() == agg.len(),
        forall|k1: int, k2: int|
            0 <= k1 <= k2 < ordenado.len() ==> (#[trigger] ordenado[k1]).2 >= (
            #[trigger] ordenado[k2]).2,
        forall|k: int|
            0 <= k < ordenado.len() ==> #[trigger] tiene_origen(ordenado[k], agg, agg.len() as int),
        forall|m: int|
            0 <= m < agg.len() ==> #[trigger] esta_presente(agg[m], ordenado),
        forall|k1: int, k2: int|
            0 <= k1 < k2 < ordenado.len() ==> (#[trigger] ordenado[k1]).0 != (
            #[trigger] ordenado[k2]).0,
        corte == (if ordenado.len() > limite {
            ordenado.take(limite)
        } else {
            ordenado
        }),
    ensures
        corte.len() == (if limite <= lista.len() {
            limite
        } else {
            lista.len() as int
        }),
        forall|k1: int, k2: int|
            0 <= k1 <= k2 < corte.len() ==> (#[trigger] corte[k1]).2 >= (#[trigger] corte[k2]).2,
        forall|k: int| 0 <= k < corte.len() ==> #[trigger] fila_del_informe(corte[k], lista),
        forall|k1: int, k2: int|
            0 <= k1 < k2 < corte.len() ==> (#[trigger] corte[k1]).0 != (#[trigger] corte[k2]).0,
        forall|j: int|
            (0 <= j < a.productos@.len() && crate::almacen::demanda_detalles(
                a.detalles@,
                (#[trigger] a.productos@[j]).id,
            ) > 0 && !(exists|k: int|
                0 <= k < corte.len() && (#[trigger] corte[k]).0 == a.productos@[j].id)) ==> forall|
                k: int,
            |
                0 <= k < corte.len() ==> (#[trigger] corte[k]).2
                    >= crate::almacen::demanda_detalles(a.detalles@, a.productos@[j].id),
{
    lema_lista_vendidos_fiel(a.productos@, a.detalles@);
    // Every kept row carries some aggregate row.
    assert forall|k: int| 0 <= k < corte.len() implies #[trigger] fila_del_informe(
        corte[k],
        lista,
    ) by {
        assert(corte[k] == ordenado[k]);
        assert(tiene_origen(ordenado[k], agg, agg.len() as int));
        let m = choose|m: int|
            0 <= m < agg.len() && #[trigger] iguales_entradas(ordenado[k], agg[m]);
        assert(entrada_corresponde(corte[k], lista[m]));
    }
    assert forall|k1: int, k2: int| 0 <= k1 < k2 < corte.len() implies (#[trigger] corte[k1]).0
        != (#[trigger] corte[k2]).0 by {
        assert(corte[k1] == ordenado[k1]);
        assert(corte[k2] == ordenado[k2]);
    }
    // Top-k: a sold product absent from the cut sold no more than any kept
    // row.
    assert forall|j: int|
        (0 <= j < a.productos@.len() && crate::almacen::demanda_detalles(
            a.detalles@,
            (#[trigger] a.productos@[j]).id,
        ) > 0 && !(exists|k: int|
            0 <= k < corte.len() && (#[trigger] corte[k]).0 == a.productos@[j].id)) implies forall|
        k: int,
    |
        0 <= k < corte.len() ==> (#[trigger] corte[k]).2 >= crate::almacen::demanda_detalles(
            a.detalles@,
            a.productos@[j].id,
        ) by {
        let id = a.productos@[j].id;
        let m = choose|m: int|
            0 <= m < lista.len() && lista[m] == entrada_vendido(a.productos@[j], a.detalles@);
        assert(entrada_corresponde(agg[m], lista[m]));
        assert(esta_presente(agg[m], ordenado));
        let w = choose|w: int|
            0 <= w < ordenado.len() && #[trigger] iguales_entradas(ordenado[w], agg[m]);
        assert(ordenado[w].0 == id);
        assert(ordenado[w].2 as int == crate::almacen::demanda_detalles(a.detalles@, id));
        if w < corte.len() {
            assert(corte[w] == ordenado[w]);
            assert(corte[w].0 == id);
        }
        assert(w >= corte.len());
        assert forall|k: int| 0 <= k < corte.len() implies (#[trigger] corte[k]).2
            >= crate::almacen::demanda_detalles(a.detalles@, id) by {
            assert(corte[k] == ordenado[k]);
            assert(ordenado[k].2 >= ordenado[w].2);
        }
    }
}

// ---------------------------------------------------------------------------
// Laws of the coordinator.
// ---------------------------------------------------------------------------

/// Reversing a sale immediately after recording it restores the store
/// exactly: every product's stock, the sale table and the line table are as
/// they were before the sale.
pub proof fn lema_reverso_restaura(
    pre: Almacen,
    items: Seq<ItemVenta>,
    fecha: i64,
    mid: Almacen,
    post: Almacen,
)
    requires
        pre.inv(),
        puede_registrar(pre, items),
        pre.siguiente_detalle_id + items.len() <= i64::MAX,
        venta_registrada(pre, items, fecha, mid),
        venta_revertida(mid, pre.siguiente_venta_id, post),
    ensures
        post.productos@ =~= pre.productos@,
        post.ventas@ =~= pre.ventas@,
        post.detalles@ =~= pre.detalles@,
        post.marcas@ == pre.marcas@,
        post.usuarios@ == pre.usuarios@,
{
    let vid = pre.siguiente_venta_id;
    let did0 = pre.siguiente_detalle_id as int;
    let nd = detalles_desde(items, vid, did0);
    // No old line names the new sale.
    assert forall|i: int| 0 <= i < pre.detalles@.len() implies (#[trigger] pre.detalles@[i]).venta_id
        != vid by {
        let x = pre.detalles@[i].venta_id;
        assert(pre.tiene_venta(x));
        let w = choose|w: int| 0 <= w < pre.ventas@.len() && (#[trigger] pre.ventas@[w]).id == x;
        assert(pre.ventas@[w].id < vid);
    }
    lema_detalles_ajenos(pre.detalles@, vid);
    assert forall|i: int| 0 <= i < nd.len() implies (#[trigger] nd[i]).venta_id == vid by {
        assert(nd[i] == detalle_desde(items[i], vid, did0 + i));
    }
    lema_sin_venta_propios(nd, vid);
    lema_sin_venta_concat(pre.detalles@, nd, vid);
    assert(post.detalles@ =~= pre.detalles@);
    // The deleted header is the one the recording pushed.
    let w = mid.indice_venta_spec(vid);
    assert(mid.tiene_venta(vid)) by {
        assert(mid.ventas@[pre.ventas@.len() as int].id == vid);
    }
    assert(0 <= w < mid.ventas@.len() && mid.ventas@[w].id == vid);
    if w < pre.ventas@.len() {
        assert(mid.ventas@[w] == pre.ventas@[w]);
        assert(pre.ventas@[w].id < vid);
    }
    assert(w == pre.ventas@.len() as int);
    assert(post.ventas@ =~= pre.ventas@) by {
        assert(post.ventas@ =~= mid.ventas@.remove(w));
    }
    // Each product's stock went down by the cart's demand and back up by the
    // recorded lines' demand, which are the same quantity.
    assert forall|j: int| 0 <= j < pre.productos@.len() implies #[trigger] post.productos@[j]
        == pre.productos@[j] by {
        let pid = pre.productos@[j].id;
        lema_demanda_venta_concat(pre.detalles@, nd, vid, pid);
        lema_demanda_detalles_desde(items, vid, did0, pid);
        assert(demanda_venta(mid.detalles@, vid, pid) == demanda(items, pid));
        crate::models::lema_demanda_no_negativa(items, pid);
        if exists|i: int| 0 <= i < items.len() && (#[trigger] items[i]).producto_id == pid {
            let i = choose|i: int|
                0 <= i < items.len() && (#[trigger] items[i]).producto_id == pid;
            pre.lema_indice_producto(j);
            assert(demanda(items, pid) <= pre.stock_de(pid));
        } else {
            lema_demanda_sin_item(items, pid);
        }
        assert(mid.productos@[j] == (Producto {
            stock: (pre.productos@[j].stock - demanda(items, pid)) as u64,
            ..pre.productos@[j]
        }));
    }
    assert(post.productos@ =~= pre.productos@);
}

/// No double spend: once a sale has taken part of a product's stock, a
/// second cart whose demand together with the first exceeds the starting
/// stock can no longer be recorded.  Of two such competing carts, at most
/// one is honoured.
pub proof fn lema_sin_doble_descuento(
    pre: Almacen,
    items1: Seq<ItemVenta>,
    fecha: i64,
    mid: Almacen,
    items2: Seq<ItemVenta>,
    pid: i64,
)
    requires
        pre.inv(),
        puede_registrar(pre, items1),
        venta_registrada(pre, items1, fecha, mid),
        pre.tiene_producto(pid),
        exists|i: int| 0 <= i < items2.len() && (#[trigger] items2[i]).producto_id == pid,
        demanda(items1, pid) + demanda(items2, pid) > pre.stock_de(pid),
    ensures
        !puede_registrar(mid, items2),
{
    let j = pre.indice_producto_spec(pid);
    assert(0 <= j < pre.productos@.len() && pre.productos@[j].id == pid);
    let w = mid.indice_producto_spec(pid);
    assert(mid.tiene_producto(pid)) by {
        assert(mid.productos@[j].id == pid);
    }
    assert(0 <= w < mid.productos@.len() && mid.productos@[w].id == pid);
    assert(pre.productos@[w].id == pid);
    pre.lema_indice_producto(w);
    assert(w == j);
    let d1 = demanda(items1, pid);
    crate::models::lema_demanda_no_negativa(items1, pid);
    assert(d1 <= pre.stock_de(pid)) by {
        let i = choose|i: int|
            0 <= i < items1.len() && (#[trigger] items1[i]).producto_id == pid;
        if exists|i: int| 0 <= i < items1.len() && (#[trigger] items1[i]).producto_id == pid {
            assert(demanda(items1, items1[i].producto_id) <= pre.stock_de(items1[i].producto_id));
        } else {
            lema_demanda_sin_item(items1, pid);
        }
    }
    assert(mid.stock_de(pid) == pre.stock_de(pid) - d1);
    if puede_registrar(mid, items2) {
        let i = choose|i: int|
            0 <= i < items2.len() && (#[trigger] items2[i]).producto_id == pid;
        assert(demanda(items2, items2[i].producto_id) <= mid.stock_de(items2[i].producto_id));
    }
}

/// Every line remaining after the deletion was a line before it.
proof fn lema_sin_venta_origen(d: Seq<DetalleVenta>, vid: i64)
    ensures
        forall|k: int|
            0 <= k < sin_venta(d, vid).len() ==> (#[trigger] sin_venta(d, vid)[k]).venta_id != vid
                && exists|j: int| 0 <= j < d.len() && d[j] == sin_venta(d, vid)[k],
    decreases d.len(),
{
    if d.len() > 0 {
        lema_sin_venta_origen(d.drop_last(), vid);
        assert forall|k: int| 0 <= k < sin_venta(d, vid).len() implies (#[trigger] sin_venta(
            d,
            vid,
        )[k]).venta_id != vid && exists|j: int| 0 <= j < d.len() && d[j] == sin_venta(d, vid)[k] by {
            let s0 = sin_venta(d.drop_last(), vid);
            if k < s0.len() {
                assert(sin_venta(d, vid)[k] == s0[k]);
                let j = choose|j: int| 0 <= j < d.drop_last().len() && d.drop_last()[j] == s0[k];
                assert(d[j] == sin_venta(d, vid)[k]);
            } else {
                assert(d.last().venta_id != vid);
                assert(sin_venta(d, vid)[k] == d.last());
                assert(d[d.len() - 1] == sin_venta(d, vid)[k]);
            }
        }
    }
}

} // verus!
