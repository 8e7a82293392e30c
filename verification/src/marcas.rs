//! Brand CRUD.  Brands own nothing: products hold a weak reference to a
//! brand id, and deleting a brand resets those references to `None` instead
//! of deleting products or refusing.

use vstd::prelude::*;

use crate::almacen::{clonar_marca, indice_marca, total_detalles, Almacen};
use crate::models::{ErrorAlmacen, Marca, MarcaNueva, Producto};
use crate::productos::iguales;
use crate::texto::{
    contiene_sin_caso, contiene_sub, lema_lex_total, lema_lex_transitiva, lex_menor_igual,
    texto_menor_igual, textos_iguales,
};

verus! {

/// The brand the store would build from this payload under this id.
pub open spec fn marca_desde(m: MarcaNueva, id: i64) -> Marca {
    Marca {
        id: id,
        nombre: m.nombre,
        descripcion: m.descripcion,
        logo: m.logo,
        rif: m.rif,
    }
}

/// Is this brand name carried by a brand other than the one with `id`?
pub open spec fn nombre_marca_de_otro(a: Almacen, id: i64, nombre: Seq<char>) -> bool {
    exists|i: int|
        0 <= i < a.marcas@.len() && (#[trigger] a.marcas@[i]).id != id && a.marcas@[i].nombre@
            == nombre
}

/// Brands whose name contains the pattern, ignoring ASCII case.
pub open spec fn marcas_con_nombre(s: Seq<Marca>, patron: Seq<char>) -> Seq<Marca>
    decreases s.len(),
{
    if s.len() == 0 {
        s
    } else {
        marcas_con_nombre(s.drop_last(), patron) + if contiene_sin_caso(
            s.last().nombre@,
            patron,
        ) {
            seq![s.last()]
        } else {
            Seq::empty()
        }
    }
}

/// Is this listing row one of the first `n` stored brands?
pub open spec fn marca_de_la_tabla(m: Marca, tabla: Seq<Marca>, n: int) -> bool {
    exists|i: int| 0 <= i < n && #[trigger] tabla[i] == m
}

/// Is this stored brand present in the listing?
pub open spec fn marca_en_listado(m: Marca, listado: Seq<Marca>) -> bool {
    exists|k: int| 0 <= k < listado.len() && #[trigger] listado[k] == m
}

/// One insertion step of the name-ordered listing: order, origin and
/// presence all carry over.
proof fn lema_insercion_marca(
    antes: Seq<Marca>,
    despues: Seq<Marca>,
    tabla: Seq<Marca>,
    j: int,
    pos: int,
    e: Marca,
)
    requires
        0 <= j < tabla.len(),
        0 <= pos <= antes.len(),
        despues == antes.insert(pos, e),
        e == tabla[j],
        forall|k1: int, k2: int|
            0 <= k1 <= k2 < antes.len() ==> lex_menor_igual(
                (#[trigger] antes[k1]).nombre@,
                (#[trigger] antes[k2]).nombre@,
            ),
        forall|x: int| 0 <= x < pos ==> lex_menor_igual((#[trigger] antes[x]).nombre@, e.nombre@),
        pos < antes.len() ==> !lex_menor_igual(antes[pos].nombre@, e.nombre@),
        forall|k: int| 0 <= k < antes.len() ==> #[trigger] marca_de_la_tabla(antes[k], tabla, j),
        forall|m: int| 0 <= m < j ==> #[trigger] marca_en_listado(tabla[m], antes),
    ensures
        despues.len() == antes.len() + 1,
        forall|k1: int, k2: int|
            0 <= k1 <= k2 < despues.len() ==> lex_menor_igual(
                (#[trigger] despues[k1]).nombre@,
                (#[trigger] despues[k2]).nombre@,
            ),
        forall|k: int|
            0 <= k < despues.len() ==> #[trigger] marca_de_la_tabla(despues[k], tabla, j + 1),
        forall|m: int| 0 <= m < j + 1 ==> #[trigger] marca_en_listado(tabla[m], despues),
{
    antes.insert_ensures(pos, e);
    assert(despues[pos] == e);
    if pos < antes.len() {
        lema_lex_total(antes[pos].nombre@, e.nombre@);
    }
    assert forall|k1: int, k2: int| 0 <= k1 <= k2 < despues.len() implies lex_menor_igual(
        (#[trigger] despues[k1]).nombre@,
        (#[trigger] despues[k2]).nombre@,
    ) by {
        if k1 < pos {
            assert(despues[k1] == antes[k1]);
        }
        if k2 < pos {
            assert(despues[k2] == antes[k2]);
        }
        if k1 > pos {
            assert(despues[k1] == antes[k1 - 1]);
        }
        if k2 > pos {
            assert(despues[k2] == antes[k2 - 1]);
        }
        if k1 == pos && k2 > pos {
            // The new row precedes its displaced successor, and order
            // carries down the rest of the tail.
            assert(lex_menor_igual(e.nombre@, antes[pos].nombre@));
            if k2 - 1 > pos {
                assert(lex_menor_igual(antes[pos].nombre@, antes[k2 - 1].nombre@));
                lema_lex_transitiva(e.nombre@, antes[pos].nombre@, antes[k2 - 1].nombre@);
            }
        }
        if k1 < pos && k2 == pos {
            assert(lex_menor_igual(antes[k1].nombre@, e.nombre@));
        }
        if k1 == pos && k2 == pos {
            lema_lex_total(e.nombre@, e.nombre@);
        }
    }
    assert forall|k: int| 0 <= k < despues.len() implies #[trigger] marca_de_la_tabla(
        despues[k],
        tabla,
        j + 1,
    ) by {
        if k < pos {
            assert(despues[k] == antes[k]);
            assert(marca_de_la_tabla(antes[k], tabla, j));
            let m = choose|m: int| 0 <= m < j && #[trigger] tabla[m] == antes[k];
            assert(tabla[m] == despues[k]);
        } else if k == pos {
            assert(tabla[j] == despues[k]);
        } else {
            assert(despues[k] == antes[k - 1]);
            assert(marca_de_la_tabla(antes[k - 1], tabla, j));
            let m = choose|m: int| 0 <= m < j && #[trigger] tabla[m] == antes[k - 1];
            assert(tabla[m] == despues[k]);
        }
    }
    assert forall|m: int| 0 <= m < j + 1 implies #[trigger] marca_en_listado(
        tabla[m],
        despues,
    ) by {
        if m == j {
            assert(despues[pos] == tabla[m]);
        } else {
            assert(marca_en_listado(tabla[m], antes));
            let k = choose|k: int| 0 <= k < antes.len() && #[trigger] antes[k] == tabla[m];
            if k < pos {
                assert(despues[k] == tabla[m]);
            } else {
                assert(despues[k + 1] == tabla[m]);
            }
        }
    }
}

/// The rows of `v` rearranged into name order (insertion sort; ties keep
/// their order of arrival): same length, every row from `v`, every row of
/// `v` present.
#[verifier::loop_isolation(false)]
fn ordenar_marcas_por_nombre(v: &Vec<Marca>) -> (r: Vec<Marca>)
    ensures
        r@.len() == v@.len(),
        forall|k1: int, k2: int|
            0 <= k1 <= k2 < r@.len() ==> lex_menor_igual(
                (#[trigger] r@[k1]).nombre@,
                (#[trigger] r@[k2]).nombre@,
            ),
        forall|k: int| 0 <= k < r@.len() ==> #[trigger] marca_de_la_tabla(r@[k], v@, v@.len() as int),
        forall|m: int| 0 <= m < v@.len() ==> #[trigger] marca_en_listado(v@[m], r@),
{
    let total = v.len();
    let mut r: Vec<Marca> = Vec::new();
    let mut j: usize = 0;
    while j < total
        invariant
            j <= total,
            total == v@.len(),
            r@.len() == j,
            forall|k1: int, k2: int|
                0 <= k1 <= k2 < r@.len() ==> lex_menor_igual(
                    (#[trigger] r@[k1]).nombre@,
                    (#[trigger] r@[k2]).nombre@,
                ),
            forall|k: int| 0 <= k < r@.len() ==> #[trigger] marca_de_la_tabla(r@[k], v@, j as int),
            forall|m: int| 0 <= m < j ==> #[trigger] marca_en_listado(v@[m], r@),
        decreases total - j,
    {
        let e = clonar_marca(&v[j]);
        let mut pos: usize = 0;
        while pos < r.len() && texto_menor_igual(r[pos].nombre.as_str(), e.nombre.as_str())
            invariant
                pos <= r@.len(),
                forall|x: int|
                    0 <= x < pos ==> lex_menor_igual((#[trigger] r@[x]).nombre@, e.nombre@),
            decreases r@.len() - pos,
        {
            pos += 1;
        }
        let ghost antes = r@;
        r.insert(pos, e);
        proof {
            lema_insercion_marca(antes, r@, v@, j as int, pos as int, v@[j as int]);
        }
        j += 1;
    }
    r
}

/// Everything but the brand table (and its id counter) is untouched.
pub open spec fn tablas_sin_marcas_iguales(a: Almacen, b: Almacen) -> bool {
    &&& b.productos@ == a.productos@
    &&& b.ventas@ == a.ventas@
    &&& b.detalles@ == a.detalles@
    &&& b.usuarios@ == a.usuarios@
    &&& b.siguiente_producto_id == a.siguiente_producto_id
    &&& b.siguiente_venta_id == a.siguiente_venta_id
    &&& b.siguiente_detalle_id == a.siguiente_detalle_id
    &&& b.siguiente_usuario_id == a.siguiente_usuario_id
}

/// Changing only brands, while every product's brand reference stays live,
/// keeps the invariant.
proof fn lema_inv_marcas(a: Almacen, b: Almacen)
    requires
        a.inv(),
        b.productos@ == a.productos@,
        b.ventas@ == a.ventas@,
        b.detalles@ == a.detalles@,
        b.usuarios@ == a.usuarios@,
        b.siguiente_producto_id == a.siguiente_producto_id,
        b.siguiente_venta_id == a.siguiente_venta_id,
        b.siguiente_detalle_id == a.siguiente_detalle_id,
        b.siguiente_usuario_id == a.siguiente_usuario_id,
        b.siguiente_marca_id >= a.siguiente_marca_id,
        forall|i: int, j: int|
            0 <= i < j < b.marcas@.len() ==> (#[trigger] b.marcas@[i]).id != (
            #[trigger] b.marcas@[j]).id,
        forall|i: int, j: int|
            0 <= i < j < b.marcas@.len() ==> (#[trigger] b.marcas@[i]).nombre@ != (
            #[trigger] b.marcas@[j]).nombre@,
        forall|i: int|
            0 <= i < b.marcas@.len() ==> (#[trigger] b.marcas@[i]).id < b.siguiente_marca_id,
        b.siguiente_marca_id >= 1,
        forall|i: int|
            0 <= i < b.productos@.len() ==> ((#[trigger] b.productos@[i]).marca_id matches Some(m)
                ==> b.tiene_marca(m)),
    ensures
        b.inv(),
{
    assert forall|x: i64| a.tiene_producto(x) implies b.tiene_producto(x) by {
        let k = choose|k: int|
            0 <= k < a.productos@.len() && (#[trigger] a.productos@[k]).id == x;
        assert(b.productos@[k].id == x);
    }
    assert forall|x: i64| a.tiene_venta(x) implies b.tiene_venta(x) by {
        let k = choose|k: int| 0 <= k < a.ventas@.len() && (#[trigger] a.ventas@[k]).id == x;
        assert(b.ventas@[k].id == x);
    }
    assert forall|x: i64| a.venta_tiene_detalle(x) implies b.venta_tiene_detalle(x) by {
        let k = choose|k: int|
            0 <= k < a.detalles@.len() && (#[trigger] a.detalles@[k]).venta_id == x;
        assert(b.detalles@[k].venta_id == x);
    }
    assert(b.ids_unicos());
    assert(b.ids_acotados());
    assert(b.unicidad_textos());
    assert(b.referencias_validas());
    assert forall|i: int| 0 <= i < b.ventas@.len() implies ((#[trigger] b.ventas@[i]).total as int)
        == total_detalles(b.detalles@, b.ventas@[i].id) by {
        assert(b.ventas@[i] == a.ventas@[i]);
        assert(total_detalles(b.detalles@, b.ventas@[i].id) == total_detalles(
            a.detalles@,
            a.ventas@[i].id,
        ));
    }
    assert(b.ventas_integras());
}

impl Almacen {
    /// With unique ids, any index holding `id` is the spec-level index.
    pub proof fn lema_indice_marca(self, i: int)
        requires
            self.ids_unicos(),
            0 <= i < self.marcas@.len(),
        ensures
            self.tiene_marca(self.marcas@[i].id),
            self.indice_marca_spec(self.marcas@[i].id) == i,
    {
        let id = self.marcas@[i].id;
        assert(self.tiene_marca(id));
        let j = self.indice_marca_spec(id);
        if i < j {
            assert(self.marcas@[i].id != self.marcas@[j].id);
        } else if j < i {
            assert(self.marcas@[j].id != self.marcas@[i].id);
        }
    }

    /// Create a brand; its name must be free.  On success the new identity
    /// is returned.
    #[verifier::loop_isolation(false)]
    pub fn crear_marca(&mut self, m: &MarcaNueva) -> (r: Result<i64, ErrorAlmacen>)
        requires
            old(self).inv(),
            old(self).siguiente_marca_id < i64::MAX,
        ensures
            final(self).inv(),
            (r == Result::<i64, ErrorAlmacen>::Err(ErrorAlmacen::MarcaDuplicada)) <==> old(self).nombre_marca_ocupado(m.nombre@),
            r is Ok <==> !old(self).nombre_marca_ocupado(m.nombre@),
            r is Err ==> iguales(*old(self), *final(self)),
            r matches Ok(id) ==> id == old(self).siguiente_marca_id && final(self).marcas@ =~= old(self).marcas@.push(marca_desde(*m, id)) && final(self).siguiente_marca_id == old(self).siguiente_marca_id + 1 && tablas_sin_marcas_iguales(*old(self), *final(self)),
    {
        let total = self.marcas.len();
        let mut k: usize = 0;
        while k < total
            invariant
                k <= total,
                total == self.marcas@.len(),
                forall|i: int| 0 <= i < k ==> (#[trigger] self.marcas@[i]).nombre@ != m.nombre@,
            decreases total - k,
        {
            if textos_iguales(self.marcas[k].nombre.as_str(), m.nombre.as_str()) {
                return Err(ErrorAlmacen::MarcaDuplicada);
            }
            k += 1;
        }
        let id = self.siguiente_marca_id;
        let nueva = Marca {
            id: id,
            nombre: m.nombre.clone(),
            descripcion: crate::almacen::clonar_opcion_texto(&m.descripcion),
            logo: crate::almacen::clonar_opcion_texto(&m.logo),
            rif: crate::almacen::clonar_opcion_texto(&m.rif),
        };
        self.marcas.push(nueva);
        self.siguiente_marca_id = id + 1;
        proof {
            assert(final(self).marcas@ =~= old(self).marcas@.push(marca_desde(*m, id)));
            assert forall|i: int| 0 <= i < final(self).productos@.len() implies ((#[trigger] final(self).productos@[i]).marca_id matches Some(x) ==> final(self).tiene_marca(x)) by {
                match old(self).productos@[i].marca_id {
                    Some(x) => {
                        assert(old(self).tiene_marca(x));
                        let w = choose|w: int|
                            0 <= w < old(self).marcas@.len() && (#[trigger] old(
                                self,
                            ).marcas@[w]).id == x;
                        assert(final(self).marcas@[w].id == x);
                    },
                    None => {},
                }
            }
            lema_inv_marcas(*old(self), *self);
        }
        Ok(id)
    }

    /// An exact copy of the brand table, in stored order.
    fn copia_marcas(&self) -> (r: Vec<Marca>)
        ensures
            r@ =~= self.marcas@,
    {
        let mut r: Vec<Marca> = Vec::new();
        let mut k: usize = 0;
        while k < self.marcas.len()
            invariant
                k <= self.marcas@.len(),
                r@ =~= self.marcas@.take(k as int),
            decreases self.marcas@.len() - k,
        {
            r.push(clonar_marca(&self.marcas[k]));
            proof {
                assert(self.marcas@.take(k + 1) =~= self.marcas@.take(k as int).push(
                    self.marcas@[k as int],
                ));
            }
            k += 1;
        }
        proof {
            assert(self.marcas@.take(self.marcas@.len() as int) =~= self.marcas@);
        }
        r
    }

    /// The whole brand table as a listing ordered by name: the result holds
    /// exactly the stored brands, sorted lexicographically on the name.
    pub fn obtener_marcas(&self) -> (r: Vec<Marca>)
        ensures
            r@.len() == self.marcas@.len(),
            forall|k1: int, k2: int|
                0 <= k1 <= k2 < r@.len() ==> lex_menor_igual(
                    (#[trigger] r@[k1]).nombre@,
                    (#[trigger] r@[k2]).nombre@,
                ),
            forall|k: int|
                0 <= k < r@.len() ==> #[trigger] marca_de_la_tabla(
                    r@[k],
                    self.marcas@,
                    self.marcas@.len() as int,
                ),
            forall|m: int|
                0 <= m < self.marcas@.len() ==> #[trigger] marca_en_listado(self.marcas@[m], r@),
    {
        let copia = self.copia_marcas();
        proof {
            assert(copia@ == self.marcas@);
        }
        ordenar_marcas_por_nombre(&copia)
    }

    /// Keyed lookup of one brand.
    pub fn obtener_marca_por_id(&self, id: i64) -> (r: Option<Marca>)
        requires
            self.inv(),
        ensures
            match r {
                Some(m) => self.tiene_marca(id) && m == self.marca_de(id),
                None => !self.tiene_marca(id),
            },
    {
        match indice_marca(&self.marcas, id) {
            Some(i) => {
                proof {
                    self.lema_indice_marca(i as int);
                }
                Some(clonar_marca(&self.marcas[i]))
            },
            None => None,
        }
    }

    /// Substring search over brand names, as typed into a search box: the
    /// result holds exactly the matching brands, ordered by name.
    #[verifier::loop_isolation(false)]
    pub fn buscar_marcas_por_nombre(&self, nombre: &str) -> (r: Vec<Marca>)
        ensures
            r@.len() == marcas_con_nombre(self.marcas@, nombre@).len(),
            forall|k1: int, k2: int|
                0 <= k1 <= k2 < r@.len() ==> lex_menor_igual(
                    (#[trigger] r@[k1]).nombre@,
                    (#[trigger] r@[k2]).nombre@,
                ),
            forall|k: int|
                0 <= k < r@.len() ==> #[trigger] marca_de_la_tabla(
                    r@[k],
                    marcas_con_nombre(self.marcas@, nombre@),
                    marcas_con_nombre(self.marcas@, nombre@).len() as int,
                ),
            forall|m: int|
                0 <= m < marcas_con_nombre(self.marcas@, nombre@).len()
                    ==> #[trigger] marca_en_listado(marcas_con_nombre(self.marcas@, nombre@)[m], r@),
    {
        let total = self.marcas.len();
        let mut crudo: Vec<Marca> = Vec::new();
        let mut k: usize = 0;
        proof {
            assert(marcas_con_nombre(self.marcas@.take(0), nombre@) =~= Seq::<Marca>::empty());
        }
        while k < total
            invariant
                k <= total,
                total == self.marcas@.len(),
                crudo@ =~= marcas_con_nombre(self.marcas@.take(k as int), nombre@),
            decreases total - k,
        {
            proof {
                assert(self.marcas@.take(k as int + 1).drop_last() =~= self.marcas@.take(k as int));
                assert(self.marcas@.take(k as int + 1).last() == self.marcas@[k as int]);
            }
            if contiene_sub(self.marcas[k].nombre.as_str(), nombre) {
                crudo.push(clonar_marca(&self.marcas[k]));
            }
            k += 1;
        }
        proof {
            assert(self.marcas@.take(total as int) =~= self.marcas@);
            assert(crudo@ == marcas_con_nombre(self.marcas@, nombre@));
        }
        ordenar_marcas_por_nombre(&crudo)
    }

    /// Replace a stored brand with the given value (matched by its id); its
    /// name must not be taken by another brand.  Reports `false` when no
    /// brand carries the id.
    #[verifier::loop_isolation(false)]
    pub fn actualizar_marca(&mut self, m: &Marca) -> (r: Result<bool, ErrorAlmacen>)
        requires
            old(self).inv(),
        ensures
            final(self).inv(),
            (r == Result::<bool, ErrorAlmacen>::Ok(false)) <==> !old(self).tiene_marca(m.id),
            (r == Result::<bool, ErrorAlmacen>::Err(ErrorAlmacen::MarcaDuplicada)) <==> (old(self).tiene_marca(m.id) && nombre_marca_de_otro(*old(self), m.id, m.nombre@)),
            r matches Err(e) ==> e == ErrorAlmacen::MarcaDuplicada,
            r is Err || r == Result::<bool, ErrorAlmacen>::Ok(false) ==> iguales(
                *old(self),
                *final(self),
            ),
            r == Result::<bool, ErrorAlmacen>::Ok(true) ==> final(self).marcas@ =~= old(self).marcas@.update(old(self).indice_marca_spec(m.id), *m) && final(self).siguiente_marca_id == old(self).siguiente_marca_id && tablas_sin_marcas_iguales(
                *old(self),
                *final(self),
            ),
    {
        let idx = match indice_marca(&self.marcas, m.id) {
            Some(i) => i,
            None => {
                return Ok(false);
            },
        };
        proof {
            self.lema_indice_marca(idx as int);
        }
        let total = self.marcas.len();
        let mut k: usize = 0;
        while k < total
            invariant
                k <= total,
                total == self.marcas@.len(),
                forall|i: int|
                    0 <= i < k ==> !((#[trigger] self.marcas@[i]).id != m.id
                        && self.marcas@[i].nombre@ == m.nombre@),
            decreases total - k,
        {
            if self.marcas[k].id != m.id && textos_iguales(
                self.marcas[k].nombre.as_str(),
                m.nombre.as_str(),
            ) {
                return Err(ErrorAlmacen::MarcaDuplicada);
            }
            k += 1;
        }
        let nueva = clonar_marca(m);
        self.marcas.set(idx, nueva);
        proof {
            assert forall|i: int, j: int| 0 <= i < j < final(self).marcas@.len() implies (
            #[trigger] final(self).marcas@[i]).nombre@ != (#[trigger] final(self).marcas@[j]).nombre@ by {
                if i != idx as int && j != idx as int {
                    assert(final(self).marcas@[i] == old(self).marcas@[i]);
                    assert(final(self).marcas@[j] == old(self).marcas@[j]);
                }
            }
            assert forall|i: int| 0 <= i < final(self).productos@.len() implies ((#[trigger] final(self).productos@[i]).marca_id matches Some(x) ==> final(self).tiene_marca(x)) by {
                match old(self).productos@[i].marca_id {
                    Some(x) => {
                        assert(old(self).tiene_marca(x));
                        let w = choose|w: int|
                            0 <= w < old(self).marcas@.len() && (#[trigger] old(
                                self,
                            ).marcas@[w]).id == x;
                        assert(final(self).marcas@[w].id == x);
                    },
                    None => {},
                }
            }
            lema_inv_marcas(*old(self), *self);
        }
        Ok(true)
    }

    /// Delete a brand by id.  Products referencing it keep existing: their
    /// brand reference is reset to `None` in the same operation.  Reports
    /// whether the brand existed.
    #[verifier::loop_isolation(false)]
    pub fn eliminar_marca(&mut self, id: i64) -> (r: bool)
        requires
            old(self).inv(),
        ensures
            final(self).inv(),
            r == old(self).tiene_marca(id),
            !r ==> iguales(*old(self), *final(self)),
            r ==> final(self).marcas@ =~= old(self).marcas@.remove(
                old(self).indice_marca_spec(id),
            ),
            r ==> final(self).productos@.len() == old(self).productos@.len(),
            r ==> forall|j: int|
                0 <= j < old(self).productos@.len() ==> #[trigger] final(self).productos@[j] == (
                if old(self).productos@[j].marca_id == Some(id) {
                    Producto { marca_id: None, ..old(self).productos@[j] }
                } else {
                    old(self).productos@[j]
                }),
            r ==> final(self).ventas@ == old(self).ventas@ && final(self).detalles@ == old(self).detalles@ && final(self).usuarios@ == old(self).usuarios@ && final(self).siguiente_producto_id == old(self).siguiente_producto_id && final(self).siguiente_marca_id == old(self).siguiente_marca_id && final(self).siguiente_venta_id == old(self).siguiente_venta_id && final(self).siguiente_detalle_id == old(self).siguiente_detalle_id && final(self).siguiente_usuario_id == old(self).siguiente_usuario_id,
    {
        let idx = match indice_marca(&self.marcas, id) {
            Some(i) => i,
            None => {
                return false;
            },
        };
        proof {
            self.lema_indice_marca(idx as int);
        }
        // First orphan the products of this brand, then drop the brand.
        let total = self.productos.len();
        let mut k: usize = 0;
        while k < total
            invariant
                k <= total,
                total == self.productos@.len(),
                self.productos@.len() == old(self).productos@.len(),
                self.marcas@ == old(self).marcas@,
                self.ventas@ == old(self).ventas@,
                self.detalles@ == old(self).detalles@,
                self.usuarios@ == old(self).usuarios@,
                self.siguiente_producto_id == old(self).siguiente_producto_id,
                self.siguiente_marca_id == old(self).siguiente_marca_id,
                self.siguiente_venta_id == old(self).siguiente_venta_id,
                self.siguiente_detalle_id == old(self).siguiente_detalle_id,
                self.siguiente_usuario_id == old(self).siguiente_usuario_id,
                forall|j: int|
                    0 <= j < k ==> #[trigger] self.productos@[j] == (if old(self).productos@[j].marca_id == Some(id) {
                        Producto { marca_id: None, ..old(self).productos@[j] }
                    } else {
                        old(self).productos@[j]
                    }),
                forall|j: int|
                    k <= j < total ==> #[trigger] self.productos@[j] == old(self).productos@[j],
            decreases total - k,
        {
            let es_de_marca = match &self.productos[k].marca_id {
                Some(x) => *x == id,
                None => false,
            };
            if es_de_marca {
                let viejo = crate::almacen::clonar_producto(&self.productos[k]);
                let p = Producto { marca_id: None, ..viejo };
                self.productos.set(k, p);
            }
            k += 1;
        }
        self.marcas.remove(idx);
        proof {
            lema_eliminar_marca_correcto(*old(self), *self, id, idx as int);
        }
        true
    }
}

/// Commit-time reasoning for `eliminar_marca`.
proof fn lema_eliminar_marca_correcto(a: Almacen, b: Almacen, id: i64, idx: int)
    requires
        a.inv(),
        0 <= idx < a.marcas@.len(),
        a.marcas@[idx].id == id,
        b.marcas@ =~= a.marcas@.remove(idx),
        b.productos@.len() == a.productos@.len(),
        forall|j: int|
            0 <= j < a.productos@.len() ==> #[trigger] b.productos@[j] == (if a.productos@[
                j
            ].marca_id == Some(id) {
                Producto { marca_id: None, ..a.productos@[j] }
            } else {
                a.productos@[j]
            }),
        b.ventas@ == a.ventas@,
        b.detalles@ == a.detalles@,
        b.usuarios@ == a.usuarios@,
        b.siguiente_producto_id == a.siguiente_producto_id,
        b.siguiente_marca_id == a.siguiente_marca_id,
        b.siguiente_venta_id == a.siguiente_venta_id,
        b.siguiente_detalle_id == a.siguiente_detalle_id,
        b.siguiente_usuario_id == a.siguiente_usuario_id,
    ensures
        b.inv(),
{
    assert forall|j: int| 0 <= j < b.productos@.len() implies (#[trigger] b.productos@[j]).id
        == a.productos@[j].id && b.productos@[j].codigo == a.productos@[j].codigo by {}
    assert forall|i: int| 0 <= i < b.marcas@.len() implies #[trigger] b.marcas@[i] == a.marcas@[
        if i < idx {
            i
        } else {
            i + 1
        }
    ] by {}
    assert forall|x: i64| a.tiene_producto(x) implies b.tiene_producto(x) by {
        let k = choose|k: int|
            0 <= k < a.productos@.len() && (#[trigger] a.productos@[k]).id == x;
        assert(b.productos@[k].id == x);
    }
    assert forall|x: i64| a.tiene_venta(x) implies b.tiene_venta(x) by {
        let k = choose|k: int| 0 <= k < a.ventas@.len() && (#[trigger] a.ventas@[k]).id == x;
        assert(b.ventas@[k].id == x);
    }
    assert forall|x: i64| a.venta_tiene_detalle(x) implies b.venta_tiene_detalle(x) by {
        let k = choose|k: int|
            0 <= k < a.detalles@.len() && (#[trigger] a.detalles@[k]).venta_id == x;
        assert(b.detalles@[k].venta_id == x);
    }
    // A surviving brand is still found after the removal.
    assert forall|x: i64| a.tiene_marca(x) && x != id implies b.tiene_marca(x) by {
        let w = choose|w: int| 0 <= w < a.marcas@.len() && (#[trigger] a.marcas@[w]).id == x;
        if w == idx {
            assert(a.marcas@[idx].id == id);
        }
        if w < idx {
            assert(b.marcas@[w].id == x);
        } else if w > idx {
            assert(b.marcas@[w - 1].id == x);
        }
    }
    assert(b.ids_unicos());
    assert(b.ids_acotados());
    assert(b.unicidad_textos());
    // A product that kept a brand reference was not of the deleted brand.
    assert forall|i: int| 0 <= i < b.productos@.len() implies ((
    #[trigger] b.productos@[i]).marca_id matches Some(x) ==> b.tiene_marca(x)) by {
        match b.productos@[i].marca_id {
            Some(x) => {
                assert(a.productos@[i].marca_id == Some(x));
                assert(a.tiene_marca(x));
                if x == id {
                    assert(b.productos@[i].marca_id == Option::<i64>::None);
                }
            },
            None => {},
        }
    }
    assert(b.referencias_validas());
    assert forall|i: int| 0 <= i < b.ventas@.len() implies ((#[trigger] b.ventas@[i]).total as int)
        == total_detalles(b.detalles@, b.ventas@[i].id) by {
        assert(b.ventas@[i] == a.ventas@[i]);
        assert(total_detalles(b.detalles@, b.ventas@[i].id) == total_detalles(
            a.detalles@,
            a.ventas@[i].id,
        ));
    }
    assert(b.ventas_integras());
}

} // verus!
