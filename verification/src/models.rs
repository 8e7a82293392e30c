//! Data model: entities, enums and the error taxonomy, together with the
//! spec-level notions of a valid cart and its totals.
//!
//! Prices are integer cents, sale timestamps integer seconds, expiry dates
//! integer day numbers.  Stock quantities are `u64`, so the "stock is never
//! negative" invariant is carried by the type itself.

use vstd::prelude::*;

verus! {

/// Closed set of user roles; persisted as text.
#[derive(Debug, Clone, Copy, PartialEq, Eq, Structural)]
pub enum Rol {
    Admin,
    Operador,
    Vendedor,
}

/// Unit of measure for a product; persisted as a small integer.
#[derive(Debug, Clone, Copy, PartialEq, Eq, Structural)]
pub enum Medida {
    Unidad,
    Kilogramo,
    Gramo,
    Litro,
    Mililitro,
}

/// Packaging kind for a product; persisted as a small integer.
#[derive(Debug, Clone, Copy, PartialEq, Eq, Structural)]
pub enum TipoEmpaque {
    Individual,
    Caja,
    Bolsa,
    Frasco,
    Botella,
    Lata,
    Docena,
    SixPack,
}

/// Why an operation on the store was refused.  Every verified operation
/// either fully succeeds or reports one of these reasons and leaves the
/// store exactly as it was.
#[derive(Debug, Clone, Copy, PartialEq, Eq, Structural)]
pub enum ErrorAlmacen {
    /// A line item violates the cart preconditions (empty cart or a zero
    /// quantity); detected before anything is touched.
    ItemInvalido,
    /// A conditional stock decrement failed for this product id: the product
    /// is missing or its stock does not cover the requested quantity.
    StockInsuficiente(i64),
    /// The sale id to reverse does not exist.
    VentaNoEncontrada,
    /// The operation would break referential integrity (for example deleting
    /// a product that historical sale lines still reference).
    IntegridadReferencial,
    /// The SKU code is already taken by another product.
    CodigoDuplicado,
    /// Another brand already carries this name.
    MarcaDuplicada,
    /// Another user already carries this username.
    UsuarioDuplicado,
    /// The sale total would not fit in 64 bits of cents (machine limit).
    TotalExcedido,
    /// Restoring stock would push a counter past its machine limit.
    StockExcedido,
}

/// The display reason for each refusal.
pub open spec fn mensaje_error(e: ErrorAlmacen) -> Seq<char> {
    match e {
        ErrorAlmacen::ItemInvalido => "La venta necesita al menos un item con cantidad positiva"@,
        ErrorAlmacen::StockInsuficiente(_) => "Stock insuficiente para el producto solicitado"@,
        ErrorAlmacen::VentaNoEncontrada => "La venta indicada no existe"@,
        ErrorAlmacen::IntegridadReferencial => "La operación rompería la integridad referencial"@,
        ErrorAlmacen::CodigoDuplicado => "El código SKU ya está registrado"@,
        ErrorAlmacen::MarcaDuplicada => "Ya existe una marca con ese nombre"@,
        ErrorAlmacen::UsuarioDuplicado => "Ya existe un usuario con ese nombre"@,
        ErrorAlmacen::TotalExcedido => "El total de la venta excede el límite representable"@,
        ErrorAlmacen::StockExcedido => "La reposición excede el límite representable del stock"@,
    }
}

impl ErrorAlmacen {
    /// A human-readable reason suitable for direct display.
    pub fn mensaje(&self) -> (r: &'static str)
        ensures
            r@ == mensaje_error(*self),
    {
        match self {
            ErrorAlmacen::ItemInvalido => "La venta necesita al menos un item con cantidad positiva",
            ErrorAlmacen::StockInsuficiente(_) => "Stock insuficiente para el producto solicitado",
            ErrorAlmacen::VentaNoEncontrada => "La venta indicada no existe",
            ErrorAlmacen::IntegridadReferencial => "La operación rompería la integridad referencial",
            ErrorAlmacen::CodigoDuplicado => "El código SKU ya está registrado",
            ErrorAlmacen::MarcaDuplicada => "Ya existe una marca con ese nombre",
            ErrorAlmacen::UsuarioDuplicado => "Ya existe un usuario con ese nombre",
            ErrorAlmacen::TotalExcedido => "El total de la venta excede el límite representable",
            ErrorAlmacen::StockExcedido => "La reposición excede el límite representable del stock",
        }
    }
}

/// A brand as stored.
#[derive(Debug, Clone)]
pub struct Marca {
    pub id: i64,
    pub nombre: String,
    pub descripcion: Option<String>,
    pub logo: Option<String>,
    pub rif: Option<String>,
}

/// Payload for creating a brand; the store assigns the id.
#[derive(Debug, Clone)]
pub struct MarcaNueva {
    pub nombre: String,
    pub descripcion: Option<String>,
    pub logo: Option<String>,
    pub rif: Option<String>,
}

/// A product as stored.  `stock` may only decrease through the conditional
/// decrement of the stock ledger, never through a blind overwrite during a
/// sale.
#[derive(Debug, Clone)]
pub struct Producto {
    pub id: i64,
    pub nombre: String,
    /// Net cost in cents.
    pub precio_neto: u64,
    /// Sale price in cents.
    pub precio_venta: u64,
    pub stock: u64,
    pub descripcion: Option<String>,
    /// Optional SKU code, unique across products when present.
    pub codigo: Option<String>,
    pub activo: bool,
    /// Expiry date as a day number, when known.
    pub fecha_vencimiento: Option<i64>,
    /// Weak reference to a brand; deleting the brand resets this to `None`.
    pub marca_id: Option<i64>,
}

/// A product joined with its brand's name, for listings.
#[derive(Debug, Clone)]
pub struct ProductoConMarca {
    pub id: i64,
    pub nombre: String,
    pub precio_neto: u64,
    pub precio_venta: u64,
    pub stock: u64,
    pub descripcion: Option<String>,
    pub codigo: Option<String>,
    pub activo: bool,
    pub fecha_vencimiento: Option<i64>,
    pub marca_id: Option<i64>,
    pub marca_nombre: Option<String>,
}

/// Payload for creating a product; the store assigns the id.
#[derive(Debug, Clone)]
pub struct ProductoNuevo {
    pub nombre: String,
    pub precio_neto: u64,
    pub precio_venta: u64,
    pub stock: u64,
    pub descripcion: Option<String>,
    pub codigo: Option<String>,
    pub activo: bool,
    pub fecha_vencimiento: Option<i64>,
    pub marca_id: Option<i64>,
}

/// A sale header.  `total` always equals the sum of the subtotals of its
/// line items; the store invariant enforces it.
#[derive(Debug, Clone, Copy, PartialEq, Eq, Structural)]
pub struct Venta {
    pub id: i64,
    /// Timestamp in seconds, assigned at creation and immutable.
    pub fecha: i64,
    /// Total in cents.
    pub total: u64,
}

/// A persisted sale line: quantity and price-at-sale-time snapshot.
#[derive(Debug, Clone, Copy, PartialEq, Eq, Structural)]
pub struct DetalleVenta {
    pub id: i64,
    pub venta_id: i64,
    pub producto_id: i64,
    pub cantidad: u64,
    /// Unit price in cents at the moment of the sale.
    pub precio_unitario: u64,
    /// Always `cantidad * precio_unitario`.
    pub subtotal: u64,
}

/// A sale line joined with the product's current name, for display.
#[derive(Debug, Clone)]
pub struct DetalleVentaConProducto {
    pub id: i64,
    pub venta_id: i64,
    pub producto_id: i64,
    pub nombre_producto: String,
    pub cantidad: u64,
    pub precio_unitario: u64,
    pub subtotal: u64,
}

/// A sale header together with all of its lines.
#[derive(Debug, Clone)]
pub struct VentaConDetalles {
    pub venta: Venta,
    pub detalles: Vec<DetalleVentaConProducto>,
}

/// One entry of a cart handed to the sale coordinator.
#[derive(Debug, Clone, Copy, PartialEq, Eq, Structural)]
pub struct ItemVenta {
    pub producto_id: i64,
    pub cantidad: u64,
    /// Unit price in cents.
    pub precio_unitario: u64,
}

/// A user account; a capability gate for write operations.
#[derive(Debug, Clone)]
pub struct Usuario {
    pub id: i64,
    pub username: String,
    pub password_hash: String,
    pub rol: Rol,
    pub activo: bool,
    /// Timestamp in seconds of the last successful login.
    pub ultimo_login: Option<i64>,
}

// ---------------------------------------------------------------------------
// Persisted representations of the measure and packaging enums.  Unknown
// stored numbers are rejected at the boundary, never silently defaulted.
// ---------------------------------------------------------------------------

pub open spec fn medida_desde(id: i32) -> Option<Medida> {
    match id {
        1 => Some(Medida::Unidad),
        2 => Some(Medida::Kilogramo),
        3 => Some(Medida::Gramo),
        4 => Some(Medida::Litro),
        5 => Some(Medida::Mililitro),
        _ => None,
    }
}

pub open spec fn medida_numero(m: Medida) -> i32 {
    match m {
        Medida::Unidad => 1,
        Medida::Kilogramo => 2,
        Medida::Gramo => 3,
        Medida::Litro => 4,
        Medida::Mililitro => 5,
    }
}

pub open spec fn nombre_medida(m: Medida) -> Seq<char> {
    match m {
        Medida::Unidad => "Unidad"@,
        Medida::Kilogramo => "Kilogramo"@,
        Medida::Gramo => "Gramo"@,
        Medida::Litro => "Litro"@,
        Medida::Mililitro => "Mililitro"@,
    }
}

pub open spec fn abreviatura_medida(m: Medida) -> Seq<char> {
    match m {
        Medida::Unidad => "un"@,
        Medida::Kilogramo => "kg"@,
        Medida::Gramo => "g"@,
        Medida::Litro => "lt"@,
        Medida::Mililitro => "ml"@,
    }
}

impl Medida {
    /// The measure a stored number denotes, if any.
    pub fn from_i32(id: i32) -> (r: Option<Medida>)
        ensures
            r == medida_desde(id),
    {
        match id {
            1 => Some(Medida::Unidad),
            2 => Some(Medida::Kilogramo),
            3 => Some(Medida::Gramo),
            4 => Some(Medida::Litro),
            5 => Some(Medida::Mililitro),
            _ => None,
        }
    }

    /// The number under which this measure is persisted.
    pub fn a_i32(&self) -> (r: i32)
        ensures
            r == medida_numero(*self),
            medida_desde(r) == Some(*self),
    {
        match self {
            Medida::Unidad => 1,
            Medida::Kilogramo => 2,
            Medida::Gramo => 3,
            Medida::Litro => 4,
            Medida::Mililitro => 5,
        }
    }

    /// Display name and abbreviation.
    pub fn info(&self) -> (r: (&'static str, &'static str))
        ensures
            r.0@ == nombre_medida(*self),
            r.1@ == abreviatura_medida(*self),
    {
        match self {
            Medida::Unidad => ("Unidad", "un"),
            Medida::Kilogramo => ("Kilogramo", "kg"),
            Medida::Gramo => ("Gramo", "g"),
            Medida::Litro => ("Litro", "lt"),
            Medida::Mililitro => ("Mililitro", "ml"),
        }
    }

    /// The display names of every measure, in persisted-number order.
    pub fn todos_los_nombres() -> (r: Vec<String>)
        ensures
            r@.len() == 5,
            r@[0]@ == nombre_medida(Medida::Unidad),
            r@[1]@ == nombre_medida(Medida::Kilogramo),
            r@[2]@ == nombre_medida(Medida::Gramo),
            r@[3]@ == nombre_medida(Medida::Litro),
            r@[4]@ == nombre_medida(Medida::Mililitro),
    {
        let mut r: Vec<String> = Vec::new();
        r.push("Unidad".to_owned());
        r.push("Kilogramo".to_owned());
        r.push("Gramo".to_owned());
        r.push("Litro".to_owned());
        r.push("Mililitro".to_owned());
        r
    }
}

pub open spec fn empaque_desde(id: i32) -> Option<TipoEmpaque> {
    match id {
        1 => Some(TipoEmpaque::Individual),
        2 => Some(TipoEmpaque::Caja),
        3 => Some(TipoEmpaque::Bolsa),
        4 => Some(TipoEmpaque::Frasco),
        5 => Some(TipoEmpaque::Botella),
        6 => Some(TipoEmpaque::Lata),
        7 => Some(TipoEmpaque::Docena),
        8 => Some(TipoEmpaque::SixPack),
        _ => None,
    }
}

pub open spec fn empaque_numero(e: TipoEmpaque) -> i32 {
    match e {
        TipoEmpaque::Individual => 1,
        TipoEmpaque::Caja => 2,
        TipoEmpaque::Bolsa => 3,
        TipoEmpaque::Frasco => 4,
        TipoEmpaque::Botella => 5,
        TipoEmpaque::Lata => 6,
        TipoEmpaque::Docena => 7,
        TipoEmpaque::SixPack => 8,
    }
}

pub open spec fn nombre_empaque(e: TipoEmpaque) -> Seq<char> {
    match e {
        TipoEmpaque::Individual => "Individual"@,
        TipoEmpaque::Caja => "Caja"@,
        TipoEmpaque::Bolsa => "Bolsa"@,
        TipoEmpaque::Frasco => "Frasco"@,
        TipoEmpaque::Botella => "Botella"@,
        TipoEmpaque::Lata => "Lata"@,
        TipoEmpaque::Docena => "Docena"@,
        TipoEmpaque::SixPack => "SixPack"@,
    }
}

pub open spec fn abreviatura_empaque(e: TipoEmpaque) -> Seq<char> {
    match e {
        TipoEmpaque::Individual => "ind"@,
        TipoEmpaque::Caja => "cj"@,
        TipoEmpaque::Bolsa => "bls"@,
        TipoEmpaque::Frasco => "fr"@,
        TipoEmpaque::Botella => "bt"@,
        TipoEmpaque::Lata => "lt"@,
        TipoEmpaque::Docena => "dz"@,
        TipoEmpaque::SixPack => "6pk"@,
    }
}

impl TipoEmpaque {
    /// The packaging kind a stored number denotes, if any.
    pub fn from_i32(id: i32) -> (r: Option<TipoEmpaque>)
        ensures
            r == empaque_desde(id),
    {
        match id {
            1 => Some(TipoEmpaque::Individual),
            2 => Some(TipoEmpaque::Caja),
            3 => Some(TipoEmpaque::Bolsa),
            4 => Some(TipoEmpaque::Frasco),
            5 => Some(TipoEmpaque::Botella),
            6 => Some(TipoEmpaque::Lata),
            7 => Some(TipoEmpaque::Docena),
            8 => Some(TipoEmpaque::SixPack),
            _ => None,
        }
    }

    /// The number under which this packaging kind is persisted.
    pub fn a_i32(&self) -> (r: i32)
        ensures
            r == empaque_numero(*self),
            empaque_desde(r) == Some(*self),
    {
        match self {
            TipoEmpaque::Individual => 1,
            TipoEmpaque::Caja => 2,
            TipoEmpaque::Bolsa => 3,
            TipoEmpaque::Frasco => 4,
            TipoEmpaque::Botella => 5,
            TipoEmpaque::Lata => 6,
            TipoEmpaque::Docena => 7,
            TipoEmpaque::SixPack => 8,
        }
    }

    /// Display name and abbreviation.
    pub fn info(&self) -> (r: (&'static str, &'static str))
        ensures
            r.0@ == nombre_empaque(*self),
            r.1@ == abreviatura_empaque(*self),
    {
        match self {
            TipoEmpaque::Individual => ("Individual", "ind"),
            TipoEmpaque::Caja => ("Caja", "cj"),
            TipoEmpaque::Bolsa => ("Bolsa", "bls"),
            TipoEmpaque::Frasco => ("Frasco", "fr"),
            TipoEmpaque::Botella => ("Botella", "bt"),
            TipoEmpaque::Lata => ("Lata", "lt"),
            TipoEmpaque::Docena => ("Docena", "dz"),
            TipoEmpaque::SixPack => ("SixPack", "6pk"),
        }
    }

    /// Every packaging kind, in persisted-number order.
    pub fn todos_tipos() -> (r: Vec<TipoEmpaque>)
        ensures
            r@ =~= seq![
                TipoEmpaque::Individual,
                TipoEmpaque::Caja,
                TipoEmpaque::Bolsa,
                TipoEmpaque::Frasco,
                TipoEmpaque::Botella,
                TipoEmpaque::Lata,
                TipoEmpaque::Docena,
                TipoEmpaque::SixPack,
            ],
    {
        let mut r: Vec<TipoEmpaque> = Vec::new();
        r.push(TipoEmpaque::Individual);
        r.push(TipoEmpaque::Caja);
        r.push(TipoEmpaque::Bolsa);
        r.push(TipoEmpaque::Frasco);
        r.push(TipoEmpaque::Botella);
        r.push(TipoEmpaque::Lata);
        r.push(TipoEmpaque::Docena);
        r.push(TipoEmpaque::SixPack);
        r
    }
}

// ---------------------------------------------------------------------------
// Spec-level view of a cart.
// ---------------------------------------------------------------------------

/// A single line item is well formed: a positive quantity.  (Prices are
/// unsigned, so "unit price >= 0" holds by type.)
pub open spec fn item_valido(it: ItemVenta) -> bool {
    it.cantidad > 0
}

/// The cart preconditions of the sale coordinator: non-empty, every
/// quantity positive.
pub open spec fn items_validos(items: Seq<ItemVenta>) -> bool {
    &&& items.len() > 0
    &&& forall|i: int| 0 <= i < items.len() ==> item_valido(#[trigger] items[i])
}

/// Mathematical subtotal of one line, in cents.
pub open spec fn subtotal_item(it: ItemVenta) -> int {
    it.cantidad * it.precio_unitario
}

/// Mathematical total of a cart: the sum of its line subtotals.
pub open spec fn total_items(items: Seq<ItemVenta>) -> int
    decreases items.len(),
{
    if items.len() == 0 {
        0
    } else {
        total_items(items.drop_last()) + subtotal_item(items.last())
    }
}

/// Total quantity a cart demands of one product, over all of its lines.
pub open spec fn demanda(items: Seq<ItemVenta>, producto_id: i64) -> int
    decreases items.len(),
{
    if items.len() == 0 {
        0
    } else {
        demanda(items.drop_last(), producto_id) + if items.last().producto_id == producto_id {
            items.last().cantidad as int
        } else {
            0
        }
    }
}

pub proof fn lema_total_items_paso(items: Seq<ItemVenta>, k: int)
    requires
        0 <= k < items.len(),
    ensures
        total_items(items.take(k + 1)) == total_items(items.take(k)) + subtotal_item(items[k]),
{
    assert(items.take(k + 1).drop_last() =~= items.take(k));
    assert(items.take(k + 1).last() == items[k]);
}

pub proof fn lema_demanda_paso(items: Seq<ItemVenta>, k: int, id: i64)
    requires
        0 <= k < items.len(),
    ensures
        demanda(items.take(k + 1), id) == demanda(items.take(k), id) + if items[k].producto_id
            == id {
            items[k].cantidad as int
        } else {
            0
        },
{
    assert(items.take(k + 1).drop_last() =~= items.take(k));
    assert(items.take(k + 1).last() == items[k]);
}

pub proof fn lema_demanda_no_negativa(items: Seq<ItemVenta>, id: i64)
    ensures
        demanda(items, id) >= 0,
    decreases items.len(),
{
    if items.len() > 0 {
        lema_demanda_no_negativa(items.drop_last(), id);
    }
}

/// The demand of a prefix never exceeds the demand of the whole cart.
pub proof fn lema_demanda_prefijo(items: Seq<ItemVenta>, k: int, id: i64)
    requires
        0 <= k <= items.len(),
    ensures
        demanda(items.take(k), id) <= demanda(items, id),
    decreases items.len() - k,
{
    if k < items.len() {
        lema_demanda_paso(items, k, id);
        lema_demanda_prefijo(items, k + 1, id);
    } else {
        assert(items.take(k) =~= items);
    }
}

pub proof fn lema_total_items_no_negativo(items: Seq<ItemVenta>)
    ensures
        total_items(items) >= 0,
    decreases items.len(),
{
    if items.len() > 0 {
        lema_total_items_no_negativo(items.drop_last());
    }
}

} // verus!
