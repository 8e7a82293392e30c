//! Product CRUD and the stock ledger.
//!
//! The ledger owns the non-negative stock invariant: during a sale, stock is
//! only ever reduced through [`Almacen::reducir_stock`], the conditional
//! decrement that refuses to go below zero.

use vstd::prelude::*;

use crate::almacen::{
    clonar_opcion_texto, clonar_producto, indice_marca, indice_producto, total_detalles, Almacen,
};
use crate::models::{ErrorAlmacen, Producto, ProductoNuevo};
use crate::orden::{en_listado, en_tabla, lema_insercion_por_clave, ordenada_por_clave};
use crate::texto::{
    contiene_sin_caso, contiene_sub, lema_lex_total, lema_lex_transitiva, lex_menor_igual,
    texto_menor_igual, textos_iguales,
};

verus! {

// ---------------------------------------------------------------------------
// Change descriptions shared by the contracts.
// ---------------------------------------------------------------------------

/// The tables other than the product table, and their id counters, are
/// untouched.
pub open spec fn tablas_ajenas_iguales(a: Almacen, b: Almacen) -> bool {
    &&& b.marcas@ == a.marcas@
    &&& b.ventas@ == a.ventas@
    &&& b.detalles@ == a.detalles@
    &&& b.usuarios@ == a.usuarios@
    &&& b.siguiente_marca_id == a.siguiente_marca_id
    &&& b.siguiente_venta_id == a.siguiente_venta_id
    &&& b.siguiente_detalle_id == a.siguiente_detalle_id
    &&& b.siguiente_usuario_id == a.siguiente_usuario_id
}

/// Nothing outside the product table changed.
pub open spec fn solo_productos_cambiados(a: Almacen, b: Almacen) -> bool {
    &&& tablas_ajenas_iguales(a, b)
    &&& b.siguiente_producto_id == a.siguiente_producto_id
}

/// The store is exactly as it was.
pub open spec fn iguales(a: Almacen, b: Almacen) -> bool {
    &&& b.productos@ == a.productos@
    &&& solo_productos_cambiados(a, b)
}

/// `b` is `a` with the product carrying `id` replaced by `p` and nothing
/// else touched.
pub open spec fn producto_reemplazado(a: Almacen, b: Almacen, id: i64, p: Producto) -> bool {
    &&& solo_productos_cambiados(a, b)
    &&& b.productos@ =~= a.productos@.update(a.indice_producto_spec(id), p)
}

/// The product the store would build from this payload under this id.
pub open spec fn producto_desde(p: ProductoNuevo, id: i64) -> Producto {
    Producto {
        id: id,
        nombre: p.nombre,
        precio_neto: p.precio_neto,
        precio_venta: p.precio_venta,
        stock: p.stock,
        descripcion: p.descripcion,
        codigo: p.codigo,
        activo: p.activo,
        fecha_vencimiento: p.fecha_vencimiento,
        marca_id: p.marca_id,
    }
}

impl Almacen {
    /// With unique ids, any index holding `id` is the spec-level index.
    pub proof fn lema_indice_producto(self, i: int)
        requires
            self.ids_unicos(),
            0 <= i < self.productos@.len(),
        ensures
            self.tiene_producto(self.productos@[i].id),
            self.indice_producto_spec(self.productos@[i].id) == i,
    {
        let id = self.productos@[i].id;
        assert(self.tiene_producto(id));
        let j = self.indice_producto_spec(id);
        if i < j {
            assert(self.productos@[i].id != self.productos@[j].id);
        } else if j < i {
            assert(self.productos@[j].id != self.productos@[i].id);
        }
    }
}

/// Replacing one product by another with the same id and an admissible code
/// and brand keeps the invariant.
proof fn lema_inv_reemplazo(a: Almacen, b: Almacen, id: i64, p: Producto)
    requires
        a.inv(),
        a.tiene_producto(id),
        producto_reemplazado(a, b, id, p),
        p.id == id,
        p.marca_id matches Some(m) ==> a.tiene_marca(m),
        forall|j: int|
            0 <= j < a.productos@.len() && j != a.indice_producto_spec(id) ==> !(p.codigo
                matches Some(c1) && (#[trigger] a.productos@[j]).codigo matches Some(c2) && c1@
                == c2@),
    ensures
        b.inv(),
{
    let i = a.indice_producto_spec(id);
    assert(0 <= i < a.productos@.len() && a.productos@[i].id == id);
    assert(b.productos@.len() == a.productos@.len());
    assert forall|k: int| 0 <= k < b.productos@.len() implies (#[trigger] b.productos@[k]).id
        == a.productos@[k].id by {
        if k == i {
        }
    }
    assert forall|x: i64| a.tiene_producto(x) implies b.tiene_producto(x) by {
        let k = choose|k: int|
            0 <= k < a.productos@.len() && (#[trigger] a.productos@[k]).id == x;
        assert(b.productos@[k].id == x);
    }
    assert forall|x: i64| a.tiene_marca(x) implies b.tiene_marca(x) by {
        let k = choose|k: int| 0 <= k < a.marcas@.len() && (#[trigger] a.marcas@[k]).id == x;
        assert(b.marcas@[k].id == x);
    }
    assert forall|x: i64| a.tiene_venta(x) implies b.tiene_venta(x) by {
        let k = choose|k: int| 0 <= k < a.ventas@.len() && (#[trigger] a.ventas@[k]).id == x;
        assert(b.ventas@[k].id == x);
    }
    assert(b.ids_unicos());
    assert(b.ids_acotados());
    assert forall|x: int, y: int| 0 <= x < y < b.productos@.len() implies !((
    #[trigger] b.productos@[x]).codigo matches Some(c1) && (#[trigger] b.productos@[y]).codigo
        matches Some(c2) && c1@ == c2@) by {
        if x != i && y != i {
            assert(b.productos@[x] == a.productos@[x]);
            assert(b.productos@[y] == a.productos@[y]);
        }
    }
    assert(b.unicidad_textos());
    assert(b.referencias_validas());
    assert forall|x: i64| a.venta_tiene_detalle(x) implies b.venta_tiene_detalle(x) by {
        let j = choose|j: int|
            0 <= j < a.detalles@.len() && (#[trigger] a.detalles@[j]).venta_id == x;
        assert(b.detalles@[j].venta_id == x);
    }
    assert forall|k: int| 0 <= k < b.ventas@.len() implies b.venta_tiene_detalle(
        (#[trigger] b.ventas@[k]).id,
    ) by {
        assert(b.ventas@[k] == a.ventas@[k]);
        assert(a.venta_tiene_detalle(a.ventas@[k].id));
    }
    assert(forall|i: int|
        0 <= i < b.detalles@.len() ==> (#[trigger] b.detalles@[i]).cantidad > 0 && (
        b.detalles@[i].subtotal as int) == (b.detalles@[i].cantidad as int) * (
        b.detalles@[i].precio_unitario as int));
    assert forall|i: int| 0 <= i < b.ventas@.len() implies ((#[trigger] b.ventas@[i]).total as int)
        == total_detalles(b.detalles@, b.ventas@[i].id) by {
        assert(b.ventas@[i] == a.ventas@[i]);
        assert(total_detalles(b.detalles@, b.ventas@[i].id) == total_detalles(
            a.detalles@,
            a.ventas@[i].id,
        ));
    }
    assert(b.ventas_integras());
}

// ---------------------------------------------------------------------------
// Read paths.
// ---------------------------------------------------------------------------

impl Almacen {
    /// Advisory read-only check that stock covers a requested quantity; the
    /// authoritative check is the conditional decrement itself.  A missing
    /// product reads as insufficient.
    pub fn verificar_stock_suficiente(&self, producto_id: i64, cantidad: u64) -> (r: bool)
        requires
            self.inv(),
        ensures
            r == (self.tiene_producto(producto_id) && self.stock_de(producto_id) >= cantidad),
    {
        match indice_producto(&self.productos, producto_id) {
            Some(i) => {
                proof {
                    self.lema_indice_producto(i as int);
                }
                self.productos[i].stock >= cantidad
            },
            None => false,
        }
    }

    /// Keyed lookup of one product.
    pub fn obtener_producto_por_id(&self, id: i64) -> (r: Option<Producto>)
        requires
            self.inv(),
        ensures
            match r {
                Some(p) => self.tiene_producto(id) && p == self.producto_de(id),
                None => !self.tiene_producto(id),
            },
    {
        match indice_producto(&self.productos, id) {
            Some(i) => {
                proof {
                    self.lema_indice_producto(i as int);
                }
                Some(clonar_producto(&self.productos[i]))
            },
            None => None,
        }
    }

    /// An exact copy of the product table, in stored order; the working
    /// copy the sale coordinator mutates before committing.
    pub(crate) fn copia_productos(&self) -> (r: Vec<Producto>)
        ensures
            r@ =~= self.productos@,
    {
        let mut r: Vec<Producto> = Vec::new();
        let mut k: usize = 0;
        while k < self.productos.len()
            invariant
                k <= self.productos@.len(),
                r@ =~= self.productos@.take(k as int),
            decreases self.productos@.len() - k,
        {
            r.push(clonar_producto(&self.productos[k]));
            proof {
                assert(self.productos@.take(k + 1) =~= self.productos@.take(k as int).push(
                    self.productos@[k as int],
                ));
            }
            k += 1;
        }
        proof {
            assert(self.productos@.take(self.productos@.len() as int) =~= self.productos@);
        }
        r
    }
}

// ---------------------------------------------------------------------------
// Name-ordered product listing.
// ---------------------------------------------------------------------------

/// Is this listing row one of the first `n` stored products?
pub open spec fn producto_de_la_tabla(p: Producto, tabla: Seq<Producto>, n: int) -> bool {
    exists|i: int| 0 <= i < n && #[trigger] tabla[i] == p
}

/// Is this stored product present in the listing?
pub open spec fn producto_en_listado(p: Producto, listado: Seq<Producto>) -> bool {
    exists|k: int| 0 <= k < listado.len() && #[trigger] listado[k] == p
}

/// One insertion step of the name-ordered listing: order, origin and
/// presence all carry over.
proof fn lema_insercion_producto(
    antes: Seq<Producto>,
    despues: Seq<Producto>,
    tabla: Seq<Producto>,
    j: int,
    pos: int,
    e: Producto,
)
    requires
        0 <= j < tabla.len(),
        0 <= pos <= antes.len(),
        despues == antes.insert(pos, e),
        e == tabla[j],
        forall|k1: int, k2: int|
            0 <= k1 <= k2 < antes.len() ==> lex_menor_igual(
                (#[trigger] antes[k1]).nombre@,
                (#[trigger] antes[k2]).nombre@,
            ),
        forall|x: int| 0 <= x < pos ==> lex_menor_igual((#[trigger] antes[x]).nombre@, e.nombre@),
        pos < antes.len() ==> !lex_menor_igual(antes[pos].nombre@, e.nombre@),
        forall|k: int| 0 <= k < antes.len() ==> #[trigger] producto_de_la_tabla(antes[k], tabla, j),
        forall|m: int| 0 <= m < j ==> #[trigger] producto_en_listado(tabla[m], antes),
    ensures
        despues.len() == antes.len() + 1,
        forall|k1: int, k2: int|
            0 <= k1 <= k2 < despues.len() ==> lex_menor_igual(
                (#[trigger] despues[k1]).nombre@,
                (#[trigger] despues[k2]).nombre@,
            ),
        forall|k: int|
            0 <= k < despues.len() ==> #[trigger] producto_de_la_tabla(despues[k], tabla, j + 1),
        forall|m: int| 0 <= m < j + 1 ==> #[trigger] producto_en_listado(tabla[m], despues),
{
    antes.insert_ensures(pos, e);
    assert(despues[pos] == e);
    if pos < antes.len() {
        lema_lex_total(antes[pos].nombre@, e.nombre@);
    }
    assert forall|k1: int, k2: int| 0 <= k1 <= k2 < despues.len() implies lex_menor_igual(
        (#[trigger] despues[k1]).nombre@,
        (#[trigger] despues[k2]).nombre@,
    ) by {
        if k1 < pos {
            assert(despues[k1] == antes[k1]);
        }
        if k2 < pos {
            assert(despues[k2] == antes[k2]);
        }
        if k1 > pos {
            assert(despues[k1] == antes[k1 - 1]);
        }
        if k2 > pos {
            assert(despues[k2] == antes[k2 - 1]);
        }
        if k1 == pos && k2 > pos {
            assert(lex_menor_igual(e.nombre@, antes[pos].nombre@));
            if k2 - 1 > pos {
                assert(lex_menor_igual(antes[pos].nombre@, antes[k2 - 1].nombre@));
                lema_lex_transitiva(e.nombre@, antes[pos].nombre@, antes[k2 - 1].nombre@);
            }
        }
        if k1 < pos && k2 == pos {
            assert(lex_menor_igual(antes[k1].nombre@, e.nombre@));
        }
        if k1 == pos && k2 == pos {
            lema_lex_total(e.nombre@, e.nombre@);
        }
    }
    assert forall|k: int| 0 <= k < despues.len() implies #[trigger] producto_de_la_tabla(
        despues[k],
        tabla,
        j + 1,
    ) by {
        if k < pos {
            assert(despues[k] == antes[k]);
            assert(producto_de_la_tabla(antes[k], tabla, j));
            let m = choose|m: int| 0 <= m < j && #[trigger] tabla[m] == antes[k];
            assert(tabla[m] == despues[k]);
        } else if k == pos {
            assert(tabla[j] == despues[k]);
        } else {
            assert(despues[k] == antes[k - 1]);
            assert(producto_de_la_tabla(antes[k - 1], tabla, j));
            let m = choose|m: int| 0 <= m < j && #[trigger] tabla[m] == antes[k - 1];
            assert(tabla[m] == despues[k]);
        }
    }
    assert forall|m: int| 0 <= m < j + 1 implies #[trigger] producto_en_listado(
        tabla[m],
        despues,
    ) by {
        if m == j {
            assert(despues[pos] == tabla[m]);
        } else {
            assert(producto_en_listado(tabla[m], antes));
            let k = choose|k: int| 0 <= k < antes.len() && #[trigger] antes[k] == tabla[m];
            if k < pos {
                assert(despues[k] == tabla[m]);
            } else {
                assert(despues[k + 1] == tabla[m]);
            }
        }
    }
}

/// The rows of `v` rearranged into name order (insertion sort; ties keep
/// their order of arrival): same length, every row from `v`, every row of
/// `v` present.
#[verifier::loop_isolation(false)]
fn ordenar_por_nombre(v: &Vec<Producto>) -> (r: Vec<Producto>)
    ensures
        r@.len() == v@.len(),
        forall|k1: int, k2: int|
            0 <= k1 <= k2 < r@.len() ==> lex_menor_igual(
                (#[trigger] r@[k1]).nombre@,
                (#[trigger] r@[k2]).nombre@,
            ),
        forall|k: int|
            0 <= k < r@.len() ==> #[trigger] producto_de_la_tabla(r@[k], v@, v@.len() as int),
        forall|m: int| 0 <= m < v@.len() ==> #[trigger] producto_en_listado(v@[m], r@),
{
    let total = v.len();
    let mut r: Vec<Producto> = Vec::new();
    let mut j: usize = 0;
    while j < total
        invariant
            j <= total,
            total == v@.len(),
            r@.len() == j,
            forall|k1: int, k2: int|
                0 <= k1 <= k2 < r@.len() ==> lex_menor_igual(
                    (#[trigger] r@[k1]).nombre@,
                    (#[trigger] r@[k2]).nombre@,
                ),
            forall|k: int| 0 <= k < r@.len() ==> #[trigger] producto_de_la_tabla(r@[k], v@, j as int),
            forall|m: int| 0 <= m < j ==> #[trigger] producto_en_listado(v@[m], r@),
        decreases total - j,
    {
        let e = clonar_producto(&v[j]);
        let mut pos: usize = 0;
        while pos < r.len() && texto_menor_igual(r[pos].nombre.as_str(), e.nombre.as_str())
            invariant
                pos <= r@.len(),
                forall|x: int|
                    0 <= x < pos ==> lex_menor_igual((#[trigger] r@[x]).nombre@, e.nombre@),
            decreases r@.len() - pos,
        {
            pos += 1;
        }
        let ghost antes = r@;
        r.insert(pos, e);
        proof {
            lema_insercion_producto(antes, r@, v@, j as int, pos as int, v@[j as int]);
        }
        j += 1;
    }
    r
}

/// The rows of `v` rearranged by ascending stock (insertion sort; ties keep
/// their order of arrival).
#[verifier::loop_isolation(false)]
fn ordenar_por_stock(v: &Vec<Producto>) -> (r: Vec<Producto>)
    ensures
        r@.len() == v@.len(),
        forall|k1: int, k2: int|
            0 <= k1 <= k2 < r@.len() ==> (#[trigger] r@[k1]).stock <= (#[trigger] r@[k2]).stock,
        forall|k: int| 0 <= k < r@.len() ==> #[trigger] en_tabla(r@[k], v@, v@.len() as int),
        forall|m: int| 0 <= m < v@.len() ==> #[trigger] en_listado(v@[m], r@),
{
    let ghost clave = |p: Producto| p.stock as int;
    let total = v.len();
    let mut r: Vec<Producto> = Vec::new();
    let mut j: usize = 0;
    while j < total
        invariant
            j <= total,
            total == v@.len(),
            r@.len() == j,
            ordenada_por_clave(r@, clave),
            forall|k: int| 0 <= k < r@.len() ==> #[trigger] en_tabla(r@[k], v@, j as int),
            forall|m: int| 0 <= m < j ==> #[trigger] en_listado(v@[m], r@),
        decreases total - j,
    {
        let e = clonar_producto(&v[j]);
        let mut pos: usize = 0;
        while pos < r.len() && r[pos].stock <= e.stock
            invariant
                pos <= r@.len(),
                forall|x: int| 0 <= x < pos ==> clave(#[trigger] r@[x]) <= clave(e),
            decreases r@.len() - pos,
        {
            pos += 1;
        }
        let ghost antes = r@;
        r.insert(pos, e);
        proof {
            lema_insercion_por_clave(antes, r@, v@, j as int, pos as int, v@[j as int], clave);
        }
        j += 1;
    }
    proof {
        assert forall|k1: int, k2: int| 0 <= k1 <= k2 < r@.len() implies (
        #[trigger] r@[k1]).stock <= (#[trigger] r@[k2]).stock by {
            assert(clave(r@[k1]) <= clave(r@[k2]));
        }
    }
    r
}

/// The expiry key of a row: its day number.  A row without a date sorts
/// first; the expiry report never holds one, since it keeps only dated
/// products.
pub open spec fn clave_vencimiento(p: Producto) -> int {
    match p.fecha_vencimiento {
        Some(d) => d as int,
        None => i64::MIN - 1,
    }
}

fn vence_antes_o_igual(a: &Producto, b: &Producto) -> (r: bool)
    ensures
        r == (clave_vencimiento(*a) <= clave_vencimiento(*b)),
{
    match (&a.fecha_vencimiento, &b.fecha_vencimiento) {
        (None, _) => true,
        (Some(_), None) => false,
        (Some(x), Some(y)) => *x <= *y,
    }
}

/// The rows of `v` rearranged by ascending expiry day (insertion sort; ties
/// keep their order of arrival).
#[verifier::loop_isolation(false)]
fn ordenar_por_vencimiento(v: &Vec<Producto>) -> (r: Vec<Producto>)
    ensures
        r@.len() == v@.len(),
        forall|k1: int, k2: int|
            0 <= k1 <= k2 < r@.len() ==> clave_vencimiento(#[trigger] r@[k1]) <= clave_vencimiento(
                #[trigger] r@[k2],
            ),
        forall|k: int| 0 <= k < r@.len() ==> #[trigger] en_tabla(r@[k], v@, v@.len() as int),
        forall|m: int| 0 <= m < v@.len() ==> #[trigger] en_listado(v@[m], r@),
{
    let ghost clave = |p: Producto| clave_vencimiento(p);
    let total = v.len();
    let mut r: Vec<Producto> = Vec::new();
    let mut j: usize = 0;
    while j < total
        invariant
            j <= total,
            total == v@.len(),
            r@.len() == j,
            ordenada_por_clave(r@, clave),
            forall|k: int| 0 <= k < r@.len() ==> #[trigger] en_tabla(r@[k], v@, j as int),
            forall|m: int| 0 <= m < j ==> #[trigger] en_listado(v@[m], r@),
        decreases total - j,
    {
        let e = clonar_producto(&v[j]);
        let mut pos: usize = 0;
        while pos < r.len() && vence_antes_o_igual(&r[pos], &e)
            invariant
                pos <= r@.len(),
                forall|x: int| 0 <= x < pos ==> clave(#[trigger] r@[x]) <= clave(e),
            decreases r@.len() - pos,
        {
            pos += 1;
        }
        let ghost antes = r@;
        r.insert(pos, e);
        proof {
            lema_insercion_por_clave(antes, r@, v@, j as int, pos as int, v@[j as int], clave);
        }
        j += 1;
    }
    proof {
        assert forall|k1: int, k2: int| 0 <= k1 <= k2 < r@.len() implies clave_vencimiento(
            #[trigger] r@[k1],
        ) <= clave_vencimiento(#[trigger] r@[k2]) by {
            assert(clave(r@[k1]) <= clave(r@[k2]));
        }
    }
    r
}

impl Almacen {
    /// The whole product table as a listing ordered by name: the result
    /// holds exactly the stored products, sorted lexicographically on the
    /// name (ties keep their stored order).
    pub fn obtener_productos(&self) -> (r: Vec<Producto>)
        ensures
            r@.len() == self.productos@.len(),
            forall|k1: int, k2: int|
                0 <= k1 <= k2 < r@.len() ==> lex_menor_igual(
                    (#[trigger] r@[k1]).nombre@,
                    (#[trigger] r@[k2]).nombre@,
                ),
            forall|k: int|
                0 <= k < r@.len() ==> #[trigger] producto_de_la_tabla(
                    r@[k],
                    self.productos@,
                    self.productos@.len() as int,
                ),
            forall|m: int|
                0 <= m < self.productos@.len() ==> #[trigger] producto_en_listado(
                    self.productos@[m],
                    r@,
                ),
    {
        let copia = self.copia_productos();
        proof {
            assert(copia@ == self.productos@);
        }
        ordenar_por_nombre(&copia)
    }
}

// ---------------------------------------------------------------------------
// Filters over the product table (read-only report queries).
// ---------------------------------------------------------------------------

/// Products whose name contains the pattern, ignoring ASCII case.
pub open spec fn productos_con_nombre(s: Seq<Producto>, patron: Seq<char>) -> Seq<Producto>
    decreases s.len(),
{
    if s.len() == 0 {
        s
    } else {
        productos_con_nombre(s.drop_last(), patron) + if contiene_sin_caso(
            s.last().nombre@,
            patron,
        ) {
            seq![s.last()]
        } else {
            Seq::empty()
        }
    }
}

/// Products belonging to one brand.
pub open spec fn productos_de_marca(s: Seq<Producto>, marca_id: i64) -> Seq<Producto>
    decreases s.len(),
{
    if s.len() == 0 {
        s
    } else {
        productos_de_marca(s.drop_last(), marca_id) + if s.last().marca_id == Some(marca_id) {
            seq![s.last()]
        } else {
            Seq::empty()
        }
    }
}

/// Active products whose stock is at or below the threshold.
pub open spec fn productos_bajo_stock(s: Seq<Producto>, minimo: u64) -> Seq<Producto>
    decreases s.len(),
{
    if s.len() == 0 {
        s
    } else {
        productos_bajo_stock(s.drop_last(), minimo) + if s.last().stock <= minimo
            && s.last().activo {
            seq![s.last()]
        } else {
            Seq::empty()
        }
    }
}

/// Active products with a known expiry date on or before the limit day.
pub open spec fn productos_por_vencer(s: Seq<Producto>, limite: i64) -> Seq<Producto>
    decreases s.len(),
{
    if s.len() == 0 {
        s
    } else {
        productos_por_vencer(s.drop_last(), limite) + if (s.last().fecha_vencimiento matches Some(
            d,
        ) && d <= limite) && s.last().activo {
            seq![s.last()]
        } else {
            Seq::empty()
        }
    }
}

impl Almacen {
    /// Substring search over product names, as typed into a search box: the
    /// result holds exactly the matching products, ordered by name.
    #[verifier::loop_isolation(false)]
    pub fn buscar_productos_por_nombre(&self, nombre: &str) -> (r: Vec<Producto>)
        ensures
            r@.len() == productos_con_nombre(self.productos@, nombre@).len(),
            forall|k1: int, k2: int|
                0 <= k1 <= k2 < r@.len() ==> lex_menor_igual(
                    (#[trigger] r@[k1]).nombre@,
                    (#[trigger] r@[k2]).nombre@,
                ),
            forall|k: int|
                0 <= k < r@.len() ==> #[trigger] producto_de_la_tabla(
                    r@[k],
                    productos_con_nombre(self.productos@, nombre@),
                    productos_con_nombre(self.productos@, nombre@).len() as int,
                ),
            forall|m: int|
                0 <= m < productos_con_nombre(self.productos@, nombre@).len()
                    ==> #[trigger] producto_en_listado(
                    productos_con_nombre(self.productos@, nombre@)[m],
                    r@,
                ),
    {
        let total = self.productos.len();
        let mut crudo: Vec<Producto> = Vec::new();
        let mut k: usize = 0;
        proof {
            assert(productos_con_nombre(self.productos@.take(0), nombre@) =~= Seq::<
                Producto,
            >::empty());
        }
        while k < total
            invariant
                k <= total,
                total == self.productos@.len(),
                crudo@ =~= productos_con_nombre(self.productos@.take(k as int), nombre@),
            decreases total - k,
        {
            proof {
                assert(self.productos@.take(k as int + 1).drop_last() =~= self.productos@.take(
                    k as int,
                ));
                assert(self.productos@.take(k as int + 1).last() == self.productos@[k as int]);
            }
            if contiene_sub(self.productos[k].nombre.as_str(), nombre) {
                crudo.push(clonar_producto(&self.productos[k]));
            }
            k += 1;
        }
        proof {
            assert(self.productos@.take(total as int) =~= self.productos@);
            assert(crudo@ == productos_con_nombre(self.productos@, nombre@));
        }
        ordenar_por_nombre(&crudo)
    }

    /// All products of one brand, ordered by name.
    #[verifier::loop_isolation(false)]
    pub fn buscar_productos_por_marca(&self, marca_id: i64) -> (r: Vec<Producto>)
        ensures
            r@.len() == productos_de_marca(self.productos@, marca_id).len(),
            forall|k1: int, k2: int|
                0 <= k1 <= k2 < r@.len() ==> lex_menor_igual(
                    (#[trigger] r@[k1]).nombre@,
                    (#[trigger] r@[k2]).nombre@,
                ),
            forall|k: int|
                0 <= k < r@.len() ==> #[trigger] producto_de_la_tabla(
                    r@[k],
                    productos_de_marca(self.productos@, marca_id),
                    productos_de_marca(self.productos@, marca_id).len() as int,
                ),
            forall|m: int|
                0 <= m < productos_de_marca(self.productos@, marca_id).len()
                    ==> #[trigger] producto_en_listado(
                    productos_de_marca(self.productos@, marca_id)[m],
                    r@,
                ),
    {
        let total = self.productos.len();
        let mut crudo: Vec<Producto> = Vec::new();
        let mut k: usize = 0;
        proof {
            assert(productos_de_marca(self.productos@.take(0), marca_id) =~= Seq::<
                Producto,
            >::empty());
        }
        while k < total
            invariant
                k <= total,
                total == self.productos@.len(),
                crudo@ =~= productos_de_marca(self.productos@.take(k as int), marca_id),
            decreases total - k,
        {
            proof {
                assert(self.productos@.take(k as int + 1).drop_last() =~= self.productos@.take(
                    k as int,
                ));
                assert(self.productos@.take(k as int + 1).last() == self.productos@[k as int]);
            }
            let es_de_marca = match &self.productos[k].marca_id {
                Some(m) => *m == marca_id,
                None => false,
            };
            if es_de_marca {
                crudo.push(clonar_producto(&self.productos[k]));
            }
            k += 1;
        }
        proof {
            assert(self.productos@.take(total as int) =~= self.productos@);
            assert(crudo@ == productos_de_marca(self.productos@, marca_id));
        }
        ordenar_por_nombre(&crudo)
    }

    /// Low-stock report: active products at or below the threshold, the
    /// scarcest first (ascending stock).
    #[verifier::loop_isolation(false)]
    pub fn obtener_productos_stock_bajo(&self, minimo: u64) -> (r: Vec<Producto>)
        ensures
            r@.len() == productos_bajo_stock(self.productos@, minimo).len(),
            forall|k1: int, k2: int|
                0 <= k1 <= k2 < r@.len() ==> (#[trigger] r@[k1]).stock <= (#[trigger] r@[k2]).stock,
            forall|k: int|
                0 <= k < r@.len() ==> #[trigger] en_tabla(
                    r@[k],
                    productos_bajo_stock(self.productos@, minimo),
                    productos_bajo_stock(self.productos@, minimo).len() as int,
                ),
            forall|m: int|
                0 <= m < productos_bajo_stock(self.productos@, minimo).len()
                    ==> #[trigger] en_listado(productos_bajo_stock(self.productos@, minimo)[m], r@),
    {
        let total = self.productos.len();
        let mut crudo: Vec<Producto> = Vec::new();
        let mut k: usize = 0;
        proof {
            assert(productos_bajo_stock(self.productos@.take(0), minimo) =~= Seq::<
                Producto,
            >::empty());
        }
        while k < total
            invariant
                k <= total,
                total == self.productos@.len(),
                crudo@ =~= productos_bajo_stock(self.productos@.take(k as int), minimo),
            decreases total - k,
        {
            proof {
                assert(self.productos@.take(k as int + 1).drop_last() =~= self.productos@.take(
                    k as int,
                ));
                assert(self.productos@.take(k as int + 1).last() == self.productos@[k as int]);
            }
            if self.productos[k].stock <= minimo && self.productos[k].activo {
                crudo.push(clonar_producto(&self.productos[k]));
            }
            k += 1;
        }
        proof {
            assert(self.productos@.take(total as int) =~= self.productos@);
            assert(crudo@ == productos_bajo_stock(self.productos@, minimo));
        }
        ordenar_por_stock(&crudo)
    }

    /// Expiry report: active products whose expiry day is at most
    /// `hoy + dias`, the soonest to expire first.  The caller supplies
    /// today's day number.
    #[verifier::loop_isolation(false)]
    pub fn obtener_productos_por_vencer(&self, hoy: i64, dias: i64) -> (r: Vec<Producto>)
        requires
            hoy + dias <= i64::MAX,
            hoy + dias >= i64::MIN,
        ensures
            r@.len() == productos_por_vencer(self.productos@, (hoy + dias) as i64).len(),
            forall|k1: int, k2: int|
                0 <= k1 <= k2 < r@.len() ==> clave_vencimiento(#[trigger] r@[k1])
                    <= clave_vencimiento(#[trigger] r@[k2]),
            forall|k: int|
                0 <= k < r@.len() ==> #[trigger] en_tabla(
                    r@[k],
                    productos_por_vencer(self.productos@, (hoy + dias) as i64),
                    productos_por_vencer(self.productos@, (hoy + dias) as i64).len() as int,
                ),
            forall|m: int|
                0 <= m < productos_por_vencer(self.productos@, (hoy + dias) as i64).len()
                    ==> #[trigger] en_listado(
                    productos_por_vencer(self.productos@, (hoy + dias) as i64)[m],
                    r@,
                ),
    {
        let limite = hoy + dias;
        let total = self.productos.len();
        let mut crudo: Vec<Producto> = Vec::new();
        let mut k: usize = 0;
        proof {
            assert(productos_por_vencer(self.productos@.take(0), limite) =~= Seq::<
                Producto,
            >::empty());
        }
        while k < total
            invariant
                k <= total,
                total == self.productos@.len(),
                crudo@ =~= productos_por_vencer(self.productos@.take(k as int), limite),
            decreases total - k,
        {
            proof {
                assert(self.productos@.take(k as int + 1).drop_last() =~= self.productos@.take(
                    k as int,
                ));
                assert(self.productos@.take(k as int + 1).last() == self.productos@[k as int]);
            }
            let vence = match &self.productos[k].fecha_vencimiento {
                Some(d) => *d <= limite,
                None => false,
            };
            if vence && self.productos[k].activo {
                crudo.push(clonar_producto(&self.productos[k]));
            }
            k += 1;
        }
        proof {
            assert(self.productos@.take(total as int) =~= self.productos@);
            assert(crudo@ == productos_por_vencer(self.productos@, limite));
        }
        ordenar_por_vencimiento(&crudo)
    }

    /// Keyed lookup of one product by its exact stored code.
    #[verifier::loop_isolation(false)]
    pub fn obtener_producto_por_codigo(&self, codigo: &str) -> (r: Option<Producto>)
        ensures
            r is Some <==> self.codigo_ocupado(codigo@),
            r matches Some(p) ==> exists|i: int|
                0 <= i < self.productos@.len() && (#[trigger] self.productos@[i]) == p && (p.codigo
                    matches Some(c) && c@ == codigo@),
    {
        let total = self.productos.len();
        let mut k: usize = 0;
        while k < total
            invariant
                k <= total,
                total == self.productos@.len(),
                forall|i: int|
                    0 <= i < k ==> !((#[trigger] self.productos@[i]).codigo matches Some(c) && c@
                        == codigo@),
            decreases total - k,
        {
            let encontrado = match &self.productos[k].codigo {
                Some(c) => textos_iguales(c.as_str(), codigo),
                None => false,
            };
            if encontrado {
                return Some(clonar_producto(&self.productos[k]));
            }
            k += 1;
        }
        None
    }

    /// Is this exact code already carried by some product?
    #[verifier::loop_isolation(false)]
    fn codigo_en_uso(&self, codigo: &str) -> (r: bool)
        ensures
            r == self.codigo_ocupado(codigo@),
    {
        let total = self.productos.len();
        let mut k: usize = 0;
        while k < total
            invariant
                k <= total,
                total == self.productos@.len(),
                forall|i: int|
                    0 <= i < k ==> !((#[trigger] self.productos@[i]).codigo matches Some(c) && c@
                        == codigo@),
            decreases total - k,
        {
            let encontrado = match &self.productos[k].codigo {
                Some(c) => textos_iguales(c.as_str(), codigo),
                None => false,
            };
            if encontrado {
                return true;
            }
            k += 1;
        }
        false
    }
}

// ---------------------------------------------------------------------------
// Creating, updating and deleting products.
// ---------------------------------------------------------------------------

/// Is this code carried by a product other than the one with `id`?
pub open spec fn codigo_ocupado_por_otro(a: Almacen, id: i64, codigo: Seq<char>) -> bool {
    exists|i: int|
        0 <= i < a.productos@.len() && (#[trigger] a.productos@[i]).id != id && (
        a.productos@[i].codigo matches Some(c) && c@ == codigo)
}

/// Inserting a fresh product with an unclaimed code and a live brand keeps
/// the invariant.
proof fn lema_inv_insercion(a: Almacen, b: Almacen, p: Producto)
    requires
        a.inv(),
        p.id == a.siguiente_producto_id,
        p.marca_id matches Some(m) ==> a.tiene_marca(m),
        !(p.codigo matches Some(c) && a.codigo_ocupado(c@)),
        b.productos@ =~= a.productos@.push(p),
        b.marcas@ == a.marcas@,
        b.ventas@ == a.ventas@,
        b.detalles@ == a.detalles@,
        b.usuarios@ == a.usuarios@,
        b.siguiente_producto_id == a.siguiente_producto_id + 1,
        b.siguiente_marca_id == a.siguiente_marca_id,
        b.siguiente_venta_id == a.siguiente_venta_id,
        b.siguiente_detalle_id == a.siguiente_detalle_id,
        b.siguiente_usuario_id == a.siguiente_usuario_id,
    ensures
        b.inv(),
{
    assert forall|x: i64| a.tiene_producto(x) implies b.tiene_producto(x) by {
        let k = choose|k: int|
            0 <= k < a.productos@.len() && (#[trigger] a.productos@[k]).id == x;
        assert(b.productos@[k].id == x);
    }
    assert forall|x: i64| a.tiene_marca(x) implies b.tiene_marca(x) by {
        let k = choose|k: int| 0 <= k < a.marcas@.len() && (#[trigger] a.marcas@[k]).id == x;
        assert(b.marcas@[k].id == x);
    }
    assert forall|x: i64| a.tiene_venta(x) implies b.tiene_venta(x) by {
        let k = choose|k: int| 0 <= k < a.ventas@.len() && (#[trigger] a.ventas@[k]).id == x;
        assert(b.ventas@[k].id == x);
    }
    assert forall|x: i64| a.venta_tiene_detalle(x) implies b.venta_tiene_detalle(x) by {
        let k = choose|k: int|
            0 <= k < a.detalles@.len() && (#[trigger] a.detalles@[k]).venta_id == x;
        assert(b.detalles@[k].venta_id == x);
    }
    assert(b.ids_unicos());
    assert(b.ids_acotados());
    assert forall|x: int, y: int| 0 <= x < y < b.productos@.len() implies !((
    #[trigger] b.productos@[x]).codigo matches Some(c1) && (#[trigger] b.productos@[y]).codigo
        matches Some(c2) && c1@ == c2@) by {
        if y < a.productos@.len() {
            assert(b.productos@[x] == a.productos@[x]);
            assert(b.productos@[y] == a.productos@[y]);
        } else {
            assert(b.productos@[y] == p);
            assert(b.productos@[x] == a.productos@[x]);
        }
    }
    assert(b.unicidad_textos());
    assert(b.referencias_validas());
    assert forall|i: int| 0 <= i < b.ventas@.len() implies ((#[trigger] b.ventas@[i]).total as int)
        == total_detalles(b.detalles@, b.ventas@[i].id) by {
        assert(b.ventas@[i] == a.ventas@[i]);
        assert(total_detalles(b.detalles@, b.ventas@[i].id) == total_detalles(
            a.detalles@,
            a.ventas@[i].id,
        ));
    }
    assert(b.ventas_integras());
}

/// Removing a product that no sale line references keeps the invariant.
proof fn lema_inv_quitar_producto(a: Almacen, b: Almacen, idx: int)
    requires
        a.inv(),
        0 <= idx < a.productos@.len(),
        !a.producto_con_historial(a.productos@[idx].id),
        b.productos@ =~= a.productos@.remove(idx),
        b.marcas@ == a.marcas@,
        b.ventas@ == a.ventas@,
        b.detalles@ == a.detalles@,
        b.usuarios@ == a.usuarios@,
        b.siguiente_producto_id == a.siguiente_producto_id,
        b.siguiente_marca_id == a.siguiente_marca_id,
        b.siguiente_venta_id == a.siguiente_venta_id,
        b.siguiente_detalle_id == a.siguiente_detalle_id,
        b.siguiente_usuario_id == a.siguiente_usuario_id,
    ensures
        b.inv(),
{
    assert forall|i: int| 0 <= i < b.productos@.len() implies #[trigger] b.productos@[i]
        == a.productos@[
        if i < idx {
            i
        } else {
            i + 1
        }
    ] by {}
    assert forall|x: i64| a.tiene_marca(x) implies b.tiene_marca(x) by {
        let k = choose|k: int| 0 <= k < a.marcas@.len() && (#[trigger] a.marcas@[k]).id == x;
        assert(b.marcas@[k].id == x);
    }
    assert forall|x: i64| a.tiene_venta(x) implies b.tiene_venta(x) by {
        let k = choose|k: int| 0 <= k < a.ventas@.len() && (#[trigger] a.ventas@[k]).id == x;
        assert(b.ventas@[k].id == x);
    }
    assert forall|x: i64| a.venta_tiene_detalle(x) implies b.venta_tiene_detalle(x) by {
        let k = choose|k: int|
            0 <= k < a.detalles@.len() && (#[trigger] a.detalles@[k]).venta_id == x;
        assert(b.detalles@[k].venta_id == x);
    }
    assert(b.ids_unicos());
    assert(b.ids_acotados());
    assert(b.unicidad_textos());
    // Sale lines never referenced the removed product, so their product
    // references survive.
    assert forall|i: int| 0 <= i < b.detalles@.len() implies b.tiene_venta(
        (#[trigger] b.detalles@[i]).venta_id,
    ) && b.tiene_producto(b.detalles@[i].producto_id) by {
        let pid = a.detalles@[i].producto_id;
        assert(a.tiene_producto(pid));
        let w = choose|w: int|
            0 <= w < a.productos@.len() && (#[trigger] a.productos@[w]).id == pid;
        if w == idx {
            assert(a.producto_con_historial(a.productos@[idx].id));
        }
        if w < idx {
            assert(b.productos@[w].id == pid);
        } else {
            assert(b.productos@[w - 1].id == pid);
        }
    }
    assert(b.referencias_validas());
    assert forall|i: int| 0 <= i < b.ventas@.len() implies ((#[trigger] b.ventas@[i]).total as int)
        == total_detalles(b.detalles@, b.ventas@[i].id) by {
        assert(b.ventas@[i] == a.ventas@[i]);
        assert(total_detalles(b.detalles@, b.ventas@[i].id) == total_detalles(
            a.detalles@,
            a.ventas@[i].id,
        ));
    }
    assert(b.ventas_integras());
}

impl Almacen {
    /// Create a product from its payload, enforcing that a supplied SKU
    /// code is unclaimed and a supplied brand reference is live.  On success
    /// the new identity is returned.
    pub fn crear_producto(&mut self, p: &ProductoNuevo) -> (r: Result<i64, ErrorAlmacen>)
        requires
            old(self).inv(),
            old(self).siguiente_producto_id < i64::MAX,
        ensures
            final(self).inv(),
            (r == Result::<i64, ErrorAlmacen>::Err(ErrorAlmacen::CodigoDuplicado)) <==> (p.codigo
                matches Some(c) && old(self).codigo_ocupado(c@)),
            (r == Result::<i64, ErrorAlmacen>::Err(ErrorAlmacen::IntegridadReferencial)) <==> (!(
            p.codigo matches Some(c) && old(self).codigo_ocupado(c@)) && (p.marca_id matches Some(m)
                && !old(self).tiene_marca(m))),
            r is Err ==> iguales(*old(self), *final(self)),
            r matches Ok(id) ==> id == old(self).siguiente_producto_id && final(self).productos@
                =~= old(self).productos@.push(producto_desde(*p, id)) && final(self).siguiente_producto_id
                == old(self).siguiente_producto_id + 1 && tablas_ajenas_iguales(
                *old(self),
                *final(self),
            ),
            r is Ok <==> (!(p.codigo matches Some(c) && old(self).codigo_ocupado(c@)) && !(
            p.marca_id matches Some(m) && !old(self).tiene_marca(m))),
    {
        let duplicado = match &p.codigo {
            Some(c) => self.codigo_en_uso(c.as_str()),
            None => false,
        };
        if duplicado {
            return Err(ErrorAlmacen::CodigoDuplicado);
        }
        let marca_viva = match &p.marca_id {
            Some(m) => indice_marca(&self.marcas, *m).is_some(),
            None => true,
        };
        if !marca_viva {
            return Err(ErrorAlmacen::IntegridadReferencial);
        }
        let id = self.siguiente_producto_id;
        let nuevo = Producto {
            id: id,
            nombre: p.nombre.clone(),
            precio_neto: p.precio_neto,
            precio_venta: p.precio_venta,
            stock: p.stock,
            descripcion: clonar_opcion_texto(&p.descripcion),
            codigo: clonar_opcion_texto(&p.codigo),
            activo: p.activo,
            fecha_vencimiento: p.fecha_vencimiento,
            marca_id: p.marca_id,
        };
        self.productos.push(nuevo);
        self.siguiente_producto_id = id + 1;
        proof {
            assert(final(self).productos@ =~= old(self).productos@.push(producto_desde(*p, id)));
            lema_inv_insercion(*old(self), *self, producto_desde(*p, id));
        }
        Ok(id)
    }

    /// Replace a stored product with the given value (matched by its id),
    /// enforcing the same code and brand rules as creation.  Reports `false`
    /// when no product carries the id.
    pub fn actualizar_producto(&mut self, p: &Producto) -> (r: Result<bool, ErrorAlmacen>)
        requires
            old(self).inv(),
        ensures
            final(self).inv(),
            (r == Result::<bool, ErrorAlmacen>::Ok(false)) <==> !old(self).tiene_producto(p.id),
            (r == Result::<bool, ErrorAlmacen>::Err(ErrorAlmacen::CodigoDuplicado)) <==> (old(
                self,
            ).tiene_producto(p.id) && (p.codigo matches Some(c) && codigo_ocupado_por_otro(
                *old(self),
                p.id,
                c@,
            ))),
            (r == Result::<bool, ErrorAlmacen>::Err(ErrorAlmacen::IntegridadReferencial)) <==> (old(
                self,
            ).tiene_producto(p.id) && !(p.codigo matches Some(c) && codigo_ocupado_por_otro(
                *old(self),
                p.id,
                c@,
            )) && (p.marca_id matches Some(m) && !old(self).tiene_marca(m))),
            r matches Err(e) ==> (e == ErrorAlmacen::CodigoDuplicado || e
                == ErrorAlmacen::IntegridadReferencial),
            r is Err || r == Result::<bool, ErrorAlmacen>::Ok(false) ==> iguales(
                *old(self),
                *final(self),
            ),
            r == Result::<bool, ErrorAlmacen>::Ok(true) ==> producto_reemplazado(
                *old(self),
                *final(self),
                p.id,
                *p,
            ),
    {
        let idx = match indice_producto(&self.productos, p.id) {
            Some(i) => i,
            None => {
                return Ok(false);
            },
        };
        proof {
            self.lema_indice_producto(idx as int);
        }
        // A code may stay with this product but must not be taken from
        // another.
        let total = self.productos.len();
        let mut duplicado = false;
        match &p.codigo {
            Some(c) => {
                let mut k: usize = 0;
                while k < total
                    invariant
                        k <= total,
                        total == self.productos@.len(),
                        p.codigo matches Some(cc) && cc@ == c@,
                        !duplicado ==> forall|i: int|
                            0 <= i < k ==> !((#[trigger] self.productos@[i]).id != p.id && (
                            self.productos@[i].codigo matches Some(c2) && c2@ == c@)),
                        duplicado ==> codigo_ocupado_por_otro(*self, p.id, c@),
                    decreases total - k,
                {
                    if self.productos[k].id != p.id {
                        let mismo = match &self.productos[k].codigo {
                            Some(c2) => textos_iguales(c2.as_str(), c.as_str()),
                            None => false,
                        };
                        if mismo {
                            duplicado = true;
                        }
                    }
                    k += 1;
                }
            },
            None => {},
        }
        if duplicado {
            return Err(ErrorAlmacen::CodigoDuplicado);
        }
        let marca_viva = match &p.marca_id {
            Some(m) => indice_marca(&self.marcas, *m).is_some(),
            None => true,
        };
        if !marca_viva {
            return Err(ErrorAlmacen::IntegridadReferencial);
        }
        let nuevo = clonar_producto(p);
        self.productos.set(idx, nuevo);
        proof {
            assert forall|j: int|
                0 <= j < old(self).productos@.len() && j != old(self).indice_producto_spec(
                    p.id,
                ) implies !(p.codigo matches Some(c1) && (#[trigger] old(
                self,
            ).productos@[j]).codigo matches Some(c2) && c1@ == c2@) by {
                if old(self).productos@[j].id == p.id {
                    old(self).lema_indice_producto(j);
                }
            }
            lema_inv_reemplazo(*old(self), *self, p.id, *p);
        }
        Ok(true)
    }

    /// Delete a product by id.  A product that historical sale lines still
    /// reference cannot be removed (retire it with `activar_producto`
    /// instead); one that is absent reports `false`.
    #[verifier::loop_isolation(false)]
    pub fn eliminar_producto(&mut self, id: i64) -> (r: Result<bool, ErrorAlmacen>)
        requires
            old(self).inv(),
        ensures
            final(self).inv(),
            (r == Result::<bool, ErrorAlmacen>::Ok(false)) <==> !old(self).tiene_producto(id),
            (r == Result::<bool, ErrorAlmacen>::Err(ErrorAlmacen::IntegridadReferencial)) <==> (old(
                self,
            ).tiene_producto(id) && old(self).producto_con_historial(id)),
            r matches Err(e) ==> e == ErrorAlmacen::IntegridadReferencial,
            r is Err || r == Result::<bool, ErrorAlmacen>::Ok(false) ==> iguales(
                *old(self),
                *final(self),
            ),
            r == Result::<bool, ErrorAlmacen>::Ok(true) ==> final(self).productos@ =~= old(
                self,
            ).productos@.remove(old(self).indice_producto_spec(id)) && solo_productos_cambiados(
                *old(self),
                *final(self),
            ),
    {
        let idx = match indice_producto(&self.productos, id) {
            Some(i) => i,
            None => {
                return Ok(false);
            },
        };
        proof {
            self.lema_indice_producto(idx as int);
        }
        let total = self.detalles.len();
        let mut k: usize = 0;
        while k < total
            invariant
                k <= total,
                total == self.detalles@.len(),
                forall|i: int| 0 <= i < k ==> (#[trigger] self.detalles@[i]).producto_id != id,
            decreases total - k,
        {
            if self.detalles[k].producto_id == id {
                return Err(ErrorAlmacen::IntegridadReferencial);
            }
            k += 1;
        }
        self.productos.remove(idx);
        proof {
            lema_inv_quitar_producto(*old(self), *self, idx as int);
        }
        Ok(true)
    }
}

// ---------------------------------------------------------------------------
// The stock ledger.
// ---------------------------------------------------------------------------

impl Almacen {
    /// Atomically reduce stock by `cantidad` only if current stock covers it;
    /// reports whether the reduction happened.  This is the only way a sale
    /// takes stock, so stock can never go negative.
    pub fn reducir_stock(&mut self, producto_id: i64, cantidad: u64) -> (r: bool)
        requires
            old(self).inv(),
        ensures
            final(self).inv(),
            r == (old(self).tiene_producto(producto_id) && old(self).stock_de(producto_id)
                >= cantidad),
            r ==> producto_reemplazado(
                *old(self),
                *final(self),
                producto_id,
                Producto {
                    stock: (old(self).stock_de(producto_id) - cantidad) as u64,
                    ..old(self).producto_de(producto_id)
                },
            ),
            !r ==> iguales(*old(self), *final(self)),
    {
        match indice_producto(&self.productos, producto_id) {
            Some(i) => {
                proof {
                    self.lema_indice_producto(i as int);
                }
                if self.productos[i].stock >= cantidad {
                    let nuevo = self.productos[i].stock - cantidad;
                    let viejo = clonar_producto(&self.productos[i]);
                    let p = Producto { stock: nuevo, ..viejo };
                    self.productos.set(i, p);
                    proof {
                        lema_inv_reemplazo(
                            *old(self),
                            *self,
                            producto_id,
                            Producto {
                                stock: (old(self).stock_de(producto_id) - cantidad) as u64,
                                ..old(self).producto_de(producto_id)
                            },
                        );
                    }
                    true
                } else {
                    false
                }
            },
            None => false,
        }
    }

    /// Unconditionally restore stock (sale reversal or returns); reports
    /// whether the product exists.  The caller keeps the counter within its
    /// machine limit.
    pub fn incrementar_stock(&mut self, producto_id: i64, cantidad: u64) -> (r: bool)
        requires
            old(self).inv(),
            old(self).tiene_producto(producto_id) ==> old(self).stock_de(producto_id) + cantidad
                <= u64::MAX,
        ensures
            final(self).inv(),
            r == old(self).tiene_producto(producto_id),
            r ==> producto_reemplazado(
                *old(self),
                *final(self),
                producto_id,
                Producto {
                    stock: (old(self).stock_de(producto_id) + cantidad) as u64,
                    ..old(self).producto_de(producto_id)
                },
            ),
            !r ==> iguales(*old(self), *final(self)),
    {
        match indice_producto(&self.productos, producto_id) {
            Some(i) => {
                proof {
                    self.lema_indice_producto(i as int);
                }
                let nuevo = self.productos[i].stock + cantidad;
                let viejo = clonar_producto(&self.productos[i]);
                let p = Producto { stock: nuevo, ..viejo };
                self.productos.set(i, p);
                proof {
                    lema_inv_reemplazo(
                        *old(self),
                        *self,
                        producto_id,
                        Producto {
                            stock: (old(self).stock_de(producto_id) + cantidad) as u64,
                            ..old(self).producto_de(producto_id)
                        },
                    );
                }
                true
            },
            None => false,
        }
    }

    /// Overwrite the stored stock level (catalog maintenance, not the sale
    /// path); reports whether the product exists.
    pub fn actualizar_stock(&mut self, producto_id: i64, nuevo_stock: u64) -> (r: bool)
        requires
            old(self).inv(),
        ensures
            final(self).inv(),
            r == old(self).tiene_producto(producto_id),
            r ==> producto_reemplazado(
                *old(self),
                *final(self),
                producto_id,
                Producto { stock: nuevo_stock, ..old(self).producto_de(producto_id) },
            ),
            !r ==> iguales(*old(self), *final(self)),
    {
        match indice_producto(&self.productos, producto_id) {
            Some(i) => {
                proof {
                    self.lema_indice_producto(i as int);
                }
                let viejo = clonar_producto(&self.productos[i]);
                let p = Producto { stock: nuevo_stock, ..viejo };
                self.productos.set(i, p);
                proof {
                    lema_inv_reemplazo(
                        *old(self),
                        *self,
                        producto_id,
                        Producto { stock: nuevo_stock, ..old(self).producto_de(producto_id) },
                    );
                }
                true
            },
            None => false,
        }
    }

    /// Retire or reactivate a product while preserving its history; this is
    /// the intended way to take a product out of sale.
    pub fn activar_producto(&mut self, producto_id: i64, activo: bool) -> (r: bool)
        requires
            old(self).inv(),
        ensures
            final(self).inv(),
            r == old(self).tiene_producto(producto_id),
            r ==> producto_reemplazado(
                *old(self),
                *final(self),
                producto_id,
                Producto { activo: activo, ..old(self).producto_de(producto_id) },
            ),
            !r ==> iguales(*old(self), *final(self)),
    {
        match indice_producto(&self.productos, producto_id) {
            Some(i) => {
                proof {
                    self.lema_indice_producto(i as int);
                }
                let viejo = clonar_producto(&self.productos[i]);
                let p = Producto { activo: activo, ..viejo };
                self.productos.set(i, p);
                proof {
                    lema_inv_reemplazo(
                        *old(self),
                        *self,
                        producto_id,
                        Producto { activo: activo, ..old(self).producto_de(producto_id) },
                    );
                }
                true
            },
            None => false,
        }
    }
}

} // verus!
