//! The entity store: one in-memory value holding products, brands, users,
//! sales and sale lines, with the global well-formedness invariant that every
//! operation of the library preserves.
//!
//! The invariant carries the rules of the data model: identities are unique,
//! sale lines always refer to an existing sale and product, a sale's total
//! equals the sum of its lines' subtotals, SKU codes and brand names and
//! usernames are unique.

use vstd::prelude::*;

use crate::models::{DetalleVenta, Marca, Producto, Usuario, Venta};

verus! {

/// The whole store.  Mutating operations take `&mut self`, state how the new
/// value relates to the old one, and preserve [`Almacen::inv`].
#[derive(Debug)]
pub struct Almacen {
    pub productos: Vec<Producto>,
    pub marcas: Vec<Marca>,
    pub ventas: Vec<Venta>,
    pub detalles: Vec<DetalleVenta>,
    pub usuarios: Vec<Usuario>,
    pub siguiente_producto_id: i64,
    pub siguiente_marca_id: i64,
    pub siguiente_venta_id: i64,
    pub siguiente_detalle_id: i64,
    pub siguiente_usuario_id: i64,
}

// ---------------------------------------------------------------------------
// Spec-level lookups.
// ---------------------------------------------------------------------------

impl Almacen {
    pub open spec fn tiene_producto(self, id: i64) -> bool {
        exists|i: int| 0 <= i < self.productos@.len() && (#[trigger] self.productos@[i]).id == id
    }

    pub open spec fn indice_producto_spec(self, id: i64) -> int {
        choose|i: int| 0 <= i < self.productos@.len() && (#[trigger] self.productos@[i]).id == id
    }

    pub open spec fn producto_de(self, id: i64) -> Producto {
        self.productos@[self.indice_producto_spec(id)]
    }

    pub open spec fn stock_de(self, id: i64) -> u64 {
        self.producto_de(id).stock
    }

    pub open spec fn tiene_marca(self, id: i64) -> bool {
        exists|i: int| 0 <= i < self.marcas@.len() && (#[trigger] self.marcas@[i]).id == id
    }

    pub open spec fn indice_marca_spec(self, id: i64) -> int {
        choose|i: int| 0 <= i < self.marcas@.len() && (#[trigger] self.marcas@[i]).id == id
    }

    pub open spec fn marca_de(self, id: i64) -> Marca {
        self.marcas@[self.indice_marca_spec(id)]
    }

    pub open spec fn tiene_venta(self, id: i64) -> bool {
        exists|i: int| 0 <= i < self.ventas@.len() && (#[trigger] self.ventas@[i]).id == id
    }

    pub open spec fn indice_venta_spec(self, id: i64) -> int {
        choose|i: int| 0 <= i < self.ventas@.len() && (#[trigger] self.ventas@[i]).id == id
    }

    pub open spec fn venta_de(self, id: i64) -> Venta {
        self.ventas@[self.indice_venta_spec(id)]
    }

    /// Does some historical sale line reference this product?
    pub open spec fn producto_con_historial(self, id: i64) -> bool {
        exists|i: int|
            0 <= i < self.detalles@.len() && (#[trigger] self.detalles@[i]).producto_id == id
    }

    /// Is this SKU code carried by some product?
    pub open spec fn codigo_ocupado(self, codigo: Seq<char>) -> bool {
        exists|i: int|
            0 <= i < self.productos@.len() && ((#[trigger] self.productos@[i]).codigo matches Some(
                c,
            ) && c@ == codigo)
    }

    /// Is this brand name taken?
    pub open spec fn nombre_marca_ocupado(self, nombre: Seq<char>) -> bool {
        exists|i: int|
            0 <= i < self.marcas@.len() && (#[trigger] self.marcas@[i]).nombre@ == nombre
    }

    /// Is this username taken?
    pub open spec fn username_ocupado(self, nombre: Seq<char>) -> bool {
        exists|i: int|
            0 <= i < self.usuarios@.len() && (#[trigger] self.usuarios@[i]).username@ == nombre
    }
}

// ---------------------------------------------------------------------------
// The invariant.
// ---------------------------------------------------------------------------

/// Total quantity that sale lines took from one product, over every sale.
pub open spec fn demanda_detalles(detalles: Seq<DetalleVenta>, producto_id: i64) -> int
    decreases detalles.len(),
{
    if detalles.len() == 0 {
        0
    } else {
        demanda_detalles(detalles.drop_last(), producto_id) + if detalles.last().producto_id
            == producto_id {
            detalles.last().cantidad as int
        } else {
            0
        }
    }
}

/// Sum of the subtotals of the lines belonging to one sale.
pub open spec fn total_detalles(detalles: Seq<DetalleVenta>, venta_id: i64) -> int
    decreases detalles.len(),
{
    if detalles.len() == 0 {
        0
    } else {
        total_detalles(detalles.drop_last(), venta_id) + if detalles.last().venta_id == venta_id {
            detalles.last().subtotal as int
        } else {
            0
        }
    }
}

impl Almacen {
    pub open spec fn ids_unicos(self) -> bool {
        &&& forall|i: int, j: int|
            0 <= i < j < self.productos@.len() ==> (#[trigger] self.productos@[i]).id != (
            #[trigger] self.productos@[j]).id
        &&& forall|i: int, j: int|
            0 <= i < j < self.marcas@.len() ==> (#[trigger] self.marcas@[i]).id != (
            #[trigger] self.marcas@[j]).id
        &&& forall|i: int, j: int|
            0 <= i < j < self.ventas@.len() ==> (#[trigger] self.ventas@[i]).id != (
            #[trigger] self.ventas@[j]).id
        &&& forall|i: int, j: int|
            0 <= i < j < self.detalles@.len() ==> (#[trigger] self.detalles@[i]).id != (
            #[trigger] self.detalles@[j]).id
        &&& forall|i: int, j: int|
            0 <= i < j < self.usuarios@.len() ==> (#[trigger] self.usuarios@[i]).id != (
            #[trigger] self.usuarios@[j]).id
    }

    pub open spec fn ids_acotados(self) -> bool {
        &&& forall|i: int|
            0 <= i < self.productos@.len() ==> (#[trigger] self.productos@[i]).id
                < self.siguiente_producto_id
        &&& forall|i: int|
            0 <= i < self.marcas@.len() ==> (#[trigger] self.marcas@[i]).id
                < self.siguiente_marca_id
        &&& forall|i: int|
            0 <= i < self.ventas@.len() ==> (#[trigger] self.ventas@[i]).id
                < self.siguiente_venta_id
        &&& forall|i: int|
            0 <= i < self.detalles@.len() ==> (#[trigger] self.detalles@[i]).id
                < self.siguiente_detalle_id
        &&& forall|i: int|
            0 <= i < self.usuarios@.len() ==> (#[trigger] self.usuarios@[i]).id
                < self.siguiente_usuario_id
        &&& self.siguiente_producto_id >= 1
        &&& self.siguiente_marca_id >= 1
        &&& self.siguiente_venta_id >= 1
        &&& self.siguiente_detalle_id >= 1
        &&& self.siguiente_usuario_id >= 1
    }

    /// SKU codes, brand names and usernames are unique.
    pub open spec fn unicidad_textos(self) -> bool {
        &&& forall|i: int, j: int|
            0 <= i < j < self.productos@.len() ==> !((#[trigger] self.productos@[i]).codigo
                matches Some(a) && (#[trigger] self.productos@[j]).codigo matches Some(b) && a@
                == b@)
        &&& forall|i: int, j: int|
            0 <= i < j < self.marcas@.len() ==> (#[trigger] self.marcas@[i]).nombre@ != (
            #[trigger] self.marcas@[j]).nombre@
        &&& forall|i: int, j: int|
            0 <= i < j < self.usuarios@.len() ==> (#[trigger] self.usuarios@[i]).username@ != (
            #[trigger] self.usuarios@[j]).username@
    }

    /// Weak references hold: a product's brand, a line's sale and product.
    pub open spec fn referencias_validas(self) -> bool {
        &&& forall|i: int|
            0 <= i < self.productos@.len() ==> ((#[trigger] self.productos@[i]).marca_id
                matches Some(m) ==> self.tiene_marca(m))
        &&& forall|i: int|
            0 <= i < self.detalles@.len() ==> self.tiene_venta(
                (#[trigger] self.detalles@[i]).venta_id,
            ) && self.tiene_producto(self.detalles@[i].producto_id)
    }

    /// Does the sale own at least one line?
    pub open spec fn venta_tiene_detalle(self, venta_id: i64) -> bool {
        exists|j: int|
            0 <= j < self.detalles@.len() && (#[trigger] self.detalles@[j]).venta_id == venta_id
    }

    /// Each sale line is well formed and each sale owns at least one line
    /// whose subtotals add up to exactly the sale's total.
    pub open spec fn ventas_integras(self) -> bool {
        &&& forall|i: int|
            0 <= i < self.detalles@.len() ==> (#[trigger] self.detalles@[i]).cantidad > 0 && (
            self.detalles@[i].subtotal as int) == (self.detalles@[i].cantidad as int) * (
            self.detalles@[i].precio_unitario as int)
        &&& forall|i: int|
            0 <= i < self.ventas@.len() ==> ((#[trigger] self.ventas@[i]).total as int)
                == total_detalles(self.detalles@, self.ventas@[i].id)
        &&& forall|i: int|
            0 <= i < self.ventas@.len() ==> self.venta_tiene_detalle(
                (#[trigger] self.ventas@[i]).id,
            )
    }

    /// The store's global well-formedness invariant.
    pub open spec fn inv(self) -> bool {
        &&& self.ids_unicos()
        &&& self.ids_acotados()
        &&& self.unicidad_textos()
        &&& self.referencias_validas()
        &&& self.ventas_integras()
    }

    /// An empty store, the starting state of the system.
    pub fn nuevo() -> (r: Almacen)
        ensures
            r.inv(),
            r.productos@ =~= Seq::<Producto>::empty(),
            r.marcas@ =~= Seq::<Marca>::empty(),
            r.ventas@ =~= Seq::<Venta>::empty(),
            r.detalles@ =~= Seq::<DetalleVenta>::empty(),
            r.usuarios@ =~= Seq::<Usuario>::empty(),
            r.siguiente_producto_id == 1,
            r.siguiente_marca_id == 1,
            r.siguiente_venta_id == 1,
            r.siguiente_detalle_id == 1,
            r.siguiente_usuario_id == 1,
    {
        Almacen {
            productos: Vec::new(),
            marcas: Vec::new(),
            ventas: Vec::new(),
            detalles: Vec::new(),
            usuarios: Vec::new(),
            siguiente_producto_id: 1,
            siguiente_marca_id: 1,
            siguiente_venta_id: 1,
            siguiente_detalle_id: 1,
            siguiente_usuario_id: 1,
        }
    }
}

// ---------------------------------------------------------------------------
// Exact clones (the derived `Clone` carries no specification).
// ---------------------------------------------------------------------------

pub fn clonar_opcion_texto(o: &Option<String>) -> (r: Option<String>)
    ensures
        r == *o,
{
    match o {
        Some(s) => Some(s.clone()),
        None => None,
    }
}

pub fn clonar_producto(p: &Producto) -> (r: Producto)
    ensures
        r == *p,
{
    Producto {
        id: p.id,
        nombre: p.nombre.clone(),
        precio_neto: p.precio_neto,
        precio_venta: p.precio_venta,
        stock: p.stock,
        descripcion: clonar_opcion_texto(&p.descripcion),
        codigo: clonar_opcion_texto(&p.codigo),
        activo: p.activo,
        fecha_vencimiento: p.fecha_vencimiento,
        marca_id: p.marca_id,
    }
}

pub fn clonar_marca(m: &Marca) -> (r: Marca)
    ensures
        r == *m,
{
    Marca {
        id: m.id,
        nombre: m.nombre.clone(),
        descripcion: clonar_opcion_texto(&m.descripcion),
        logo: clonar_opcion_texto(&m.logo),
        rif: clonar_opcion_texto(&m.rif),
    }
}

pub fn clonar_usuario(u: &Usuario) -> (r: Usuario)
    ensures
        r == *u,
{
    Usuario {
        id: u.id,
        username: u.username.clone(),
        password_hash: u.password_hash.clone(),
        rol: u.rol,
        activo: u.activo,
        ultimo_login: u.ultimo_login,
    }
}

// ---------------------------------------------------------------------------
// Index search helpers.
// ---------------------------------------------------------------------------

/// First index holding a product with this id, if any.
pub fn indice_producto(productos: &Vec<Producto>, id: i64) -> (r: Option<usize>)
    ensures
        match r {
            Some(i) => i < productos@.len() && productos@[i as int].id == id,
            None => forall|i: int|
                0 <= i < productos@.len() ==> (#[trigger] productos@[i]).id != id,
        },
{
    let mut k: usize = 0;
    while k < productos.len()
        invariant
            k <= productos@.len(),
            forall|i: int| 0 <= i < k ==> (#[trigger] productos@[i]).id != id,
        decreases productos@.len() - k,
    {
        if productos[k].id == id {
            return Some(k);
        }
        k += 1;
    }
    None
}

/// First index holding a brand with this id, if any.
pub fn indice_marca(marcas: &Vec<Marca>, id: i64) -> (r: Option<usize>)
    ensures
        match r {
            Some(i) => i < marcas@.len() && marcas@[i as int].id == id,
            None => forall|i: int| 0 <= i < marcas@.len() ==> (#[trigger] marcas@[i]).id != id,
        },
{
    let mut k: usize = 0;
    while k < marcas.len()
        invariant
            k <= marcas@.len(),
            forall|i: int| 0 <= i < k ==> (#[trigger] marcas@[i]).id != id,
        decreases marcas@.len() - k,
    {
        if marcas[k].id == id {
            return Some(k);
        }
        k += 1;
    }
    None
}

/// First index holding a sale with this id, if any.
pub fn indice_venta(ventas: &Vec<Venta>, id: i64) -> (r: Option<usize>)
    ensures
        match r {
            Some(i) => i < ventas@.len() && ventas@[i as int].id == id,
            None => forall|i: int| 0 <= i < ventas@.len() ==> (#[trigger] ventas@[i]).id != id,
        },
{
    let mut k: usize = 0;
    while k < ventas.len()
        invariant
            k <= ventas@.len(),
            forall|i: int| 0 <= i < k ==> (#[trigger] ventas@[i]).id != id,
        decreases ventas@.len() - k,
    {
        if ventas[k].id == id {
            return Some(k);
        }
        k += 1;
    }
    None
}

} // verus!
