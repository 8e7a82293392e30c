//! Presentation of the inventory: table rows as plain text, an explicit
//! request-scoped index from row position back to product identity (owned by
//! the caller, never hidden process-wide state), and the numeric input
//! filter used by form fields.

use vstd::prelude::*;

use crate::almacen::{clonar_opcion_texto, indice_marca, Almacen};
use crate::models::{ErrorAlmacen, Producto, ProductoConMarca};
use crate::productos::{producto_de_la_tabla, producto_en_listado};
use crate::texto::{
    decimal_de, digito_texto, es_digito_char, lex_menor_igual, monto_de, texto_decimal, texto_monto,
};

verus! {

/// What a row of the inventory table needs to act on an entity: identity
/// and the fields shown for editing.
#[derive(Debug, Clone)]
pub struct ProductInfo {
    pub id: i64,
    pub nombre: String,
    /// Sale price in cents.
    pub precio_venta: u64,
    pub stock: u64,
}

/// One inventory row as plain text, ready for display.
#[derive(Debug, Clone)]
pub struct ProductRowData {
    pub codigo: String,
    pub nombre: String,
    pub precio_venta: String,
    pub stock: String,
    pub marca_nombre: String,
    pub activo: bool,
}

// ---------------------------------------------------------------------------
// Spec of the rendered fields.
// ---------------------------------------------------------------------------

/// The code column: the stored code, or the placeholder.
pub open spec fn texto_codigo(p: Producto) -> Seq<char> {
    match p.codigo {
        Some(c) => c@,
        None => "S/C"@,
    }
}

/// The brand column: the referenced brand's name, or the placeholder.
pub open spec fn texto_marca(a: Almacen, p: Producto) -> Seq<char> {
    match p.marca_id {
        Some(m) => if a.tiene_marca(m) {
            a.marca_de(m).nombre@
        } else {
            "Sin Marca"@
        },
        None => "Sin Marca"@,
    }
}

/// Is this listing row the given stored product joined with its brand's
/// name?
pub open spec fn fila_con_marca_de(a: Almacen, f: ProductoConMarca, p: Producto) -> bool {
    &&& f.id == p.id
    &&& f.nombre@ == p.nombre@
    &&& f.precio_neto == p.precio_neto
    &&& f.precio_venta == p.precio_venta
    &&& f.stock == p.stock
    &&& f.descripcion == p.descripcion
    &&& f.codigo == p.codigo
    &&& f.activo == p.activo
    &&& f.fecha_vencimiento == p.fecha_vencimiento
    &&& f.marca_id == p.marca_id
    &&& (match p.marca_id {
        Some(m) => f.marca_nombre matches Some(nm) && nm@ == a.marca_de(m).nombre@,
        None => f.marca_nombre is None,
    })
}

/// Is this listing row the join of some stored product?
pub open spec fn fila_presentada(a: Almacen, f: ProductoConMarca) -> bool {
    exists|i: int|
        0 <= i < a.productos@.len() && fila_con_marca_de(a, f, #[trigger] a.productos@[i])
}

/// Is this stored product presented on some row of the listing?
pub open spec fn producto_presentado(a: Almacen, p: Producto, listado: Seq<ProductoConMarca>) -> bool {
    exists|j: int| 0 <= j < listado.len() && fila_con_marca_de(a, #[trigger] listado[j], p)
}

impl Almacen {
    /// Every product joined with its brand's name, as a listing ordered by
    /// name: each row presents a stored product and every stored product is
    /// presented.
    #[verifier::loop_isolation(false)]
    pub fn obtener_productos_con_marca(&self) -> (r: Vec<ProductoConMarca>)
        requires
            self.inv(),
        ensures
            r@.len() == self.productos@.len(),
            forall|k1: int, k2: int|
                0 <= k1 <= k2 < r@.len() ==> lex_menor_igual(
                    (#[trigger] r@[k1]).nombre@,
                    (#[trigger] r@[k2]).nombre@,
                ),
            forall|j: int| 0 <= j < r@.len() ==> #[trigger] fila_presentada(*self, r@[j]),
            forall|i: int|
                0 <= i < self.productos@.len() ==> producto_presentado(
                    *self,
                    #[trigger] self.productos@[i],
                    r@,
                ),
    {
        let ordenados = self.obtener_productos();
        let total = ordenados.len();
        let mut r: Vec<ProductoConMarca> = Vec::new();
        let mut k: usize = 0;
        while k < total
            invariant
                k <= total,
                total == ordenados@.len(),
                r@.len() == k,
                forall|j: int|
                    0 <= j < k ==> fila_con_marca_de(*self, #[trigger] r@[j], ordenados@[j]),
            decreases total - k,
        {
            let p = &ordenados[k];
            proof {
                assert(producto_de_la_tabla(
                    ordenados@[k as int],
                    self.productos@,
                    self.productos@.len() as int,
                ));
                let i = choose|i: int|
                    0 <= i < self.productos@.len() && #[trigger] self.productos@[i] == ordenados@[
                        k as int
                    ];
                assert(self.productos@[i].marca_id matches Some(m) ==> self.tiene_marca(m));
                assert(ordenados@[k as int].marca_id matches Some(m) ==> self.tiene_marca(m));
            }
            let marca_nombre: Option<String> = match &p.marca_id {
                Some(m) => {
                    match indice_marca(&self.marcas, *m) {
                        Some(w) => {
                            proof {
                                self.lema_indice_marca(w as int);
                            }
                            Some(self.marcas[w].nombre.clone())
                        },
                        None => {
                            proof {
                                let w = choose|w: int|
                                    0 <= w < self.marcas@.len() && (#[trigger] self.marcas@[w]).id
                                        == *m;
                                assert(false);
                            }
                            None
                        },
                    }
                },
                None => None,
            };
            let fila = ProductoConMarca {
                id: p.id,
                nombre: p.nombre.clone(),
                precio_neto: p.precio_neto,
                precio_venta: p.precio_venta,
                stock: p.stock,
                descripcion: clonar_opcion_texto(&p.descripcion),
                codigo: clonar_opcion_texto(&p.codigo),
                activo: p.activo,
                fecha_vencimiento: p.fecha_vencimiento,
                marca_id: p.marca_id,
                marca_nombre: marca_nombre,
            };
            r.push(fila);
            k += 1;
        }
        proof {
            assert forall|k1: int, k2: int| 0 <= k1 <= k2 < r@.len() implies lex_menor_igual(
                (#[trigger] r@[k1]).nombre@,
                (#[trigger] r@[k2]).nombre@,
            ) by {
                assert(fila_con_marca_de(*self, r@[k1], ordenados@[k1]));
                assert(fila_con_marca_de(*self, r@[k2], ordenados@[k2]));
                assert(lex_menor_igual(ordenados@[k1].nombre@, ordenados@[k2].nombre@));
            }
            assert forall|j: int| 0 <= j < r@.len() implies #[trigger] fila_presentada(
                *self,
                r@[j],
            ) by {
                assert(producto_de_la_tabla(
                    ordenados@[j],
                    self.productos@,
                    self.productos@.len() as int,
                ));
                let i = choose|i: int|
                    0 <= i < self.productos@.len() && #[trigger] self.productos@[i]
                        == ordenados@[j];
                assert(fila_con_marca_de(*self, r@[j], self.productos@[i]));
            }
            assert forall|i: int| 0 <= i < self.productos@.len() implies producto_presentado(
                *self,
                #[trigger] self.productos@[i],
                r@,
            ) by {
                assert(producto_en_listado(self.productos@[i], ordenados@));
                let j = choose|j: int|
                    0 <= j < ordenados@.len() && #[trigger] ordenados@[j] == self.productos@[i];
                assert(fila_con_marca_de(*self, r@[j], self.productos@[i]));
            }
        }
        r
    }
}

// ---------------------------------------------------------------------------
// Rows plus their request-scoped index.
// ---------------------------------------------------------------------------

/// Is row `fila`, with its index entry `info`, the rendering of the given
/// stored product?
pub open spec fn fila_inventario_de(
    a: Almacen,
    fila: ProductRowData,
    info: ProductInfo,
    p: Producto,
) -> bool {
    &&& fila.codigo@ == texto_codigo(p)
    &&& fila.nombre@ == p.nombre@
    &&& fila.precio_venta@ == monto_de(p.precio_venta as nat)
    &&& fila.stock@ == decimal_de(p.stock as nat)
    &&& fila.marca_nombre@ == texto_marca(a, p)
    &&& fila.activo == p.activo
    &&& info.id == p.id
    &&& info.nombre@ == p.nombre@
    &&& info.precio_venta == p.precio_venta
    &&& info.stock == p.stock
}

/// Do this row and its index entry render one and the same stored product?
pub open spec fn fila_del_inventario(a: Almacen, fila: ProductRowData, info: ProductInfo) -> bool {
    exists|i: int|
        0 <= i < a.productos@.len() && fila_inventario_de(a, fila, info, #[trigger] a.productos@[i])
}

/// Is this stored product rendered on some row of the table, with the index
/// entry of that same row naming it?
pub open spec fn producto_en_filas(
    a: Almacen,
    p: Producto,
    filas: Seq<ProductRowData>,
    indice: Seq<ProductInfo>,
) -> bool {
    exists|j: int|
        0 <= j < filas.len() && j < indice.len() && fila_inventario_de(
            a,
            #[trigger] filas[j],
            indice[j],
            p,
        )
}

/// Render the inventory as display rows ordered by product name, together
/// with the lookup index that maps each row position back to the product
/// shown there.  The index is returned to the caller instead of being kept
/// as hidden mutable state, so a stale table can never act on the wrong
/// product silently.
#[verifier::loop_isolation(false)]
pub fn get_inventory_rows_raw(almacen: &Almacen) -> (r: (Vec<ProductRowData>, Vec<ProductInfo>))
    requires
        almacen.inv(),
    ensures
        r.0@.len() == almacen.productos@.len(),
        r.1@.len() == almacen.productos@.len(),
        forall|k1: int, k2: int|
            0 <= k1 <= k2 < r.0@.len() ==> lex_menor_igual(
                (#[trigger] r.0@[k1]).nombre@,
                (#[trigger] r.0@[k2]).nombre@,
            ),
        forall|j: int|
            0 <= j < r.0@.len() ==> #[trigger] fila_del_inventario(*almacen, r.0@[j], r.1@[j]),
        forall|i: int|
            0 <= i < almacen.productos@.len() ==> producto_en_filas(
                *almacen,
                #[trigger] almacen.productos@[i],
                r.0@,
                r.1@,
            ),
{
    let ordenados = almacen.obtener_productos();
    let total = ordenados.len();
    let mut filas: Vec<ProductRowData> = Vec::new();
    let mut indice: Vec<ProductInfo> = Vec::new();
    let mut k: usize = 0;
    while k < total
        invariant
            k <= total,
            total == ordenados@.len(),
            filas@.len() == k,
            indice@.len() == k,
            forall|j: int|
                0 <= j < k ==> fila_inventario_de(
                    *almacen,
                    #[trigger] filas@[j],
                    indice@[j],
                    ordenados@[j],
                ),
        decreases total - k,
    {
        let p = &ordenados[k];
        proof {
            assert(producto_de_la_tabla(
                ordenados@[k as int],
                almacen.productos@,
                almacen.productos@.len() as int,
            ));
            let i = choose|i: int|
                0 <= i < almacen.productos@.len() && #[trigger] almacen.productos@[i] == ordenados@[
                    k as int
                ];
            assert(almacen.productos@[i].marca_id matches Some(m) ==> almacen.tiene_marca(m));
            assert(ordenados@[k as int].marca_id matches Some(m) ==> almacen.tiene_marca(m));
        }
        let codigo = match &p.codigo {
            Some(c) => c.clone(),
            None => "S/C".to_owned(),
        };
        let marca_nombre = match &p.marca_id {
            Some(m) => {
                match indice_marca(&almacen.marcas, *m) {
                    Some(w) => {
                        proof {
                            almacen.lema_indice_marca(w as int);
                        }
                        almacen.marcas[w].nombre.clone()
                    },
                    None => {
                        proof {
                            let w = choose|w: int|
                                0 <= w < almacen.marcas@.len() && (#[trigger] almacen.marcas@[w]).id
                                    == *m;
                            assert(false);
                        }
                        "Sin Marca".to_owned()
                    },
                }
            },
            None => "Sin Marca".to_owned(),
        };
        filas.push(
            ProductRowData {
                codigo: codigo,
                nombre: p.nombre.clone(),
                precio_venta: texto_monto(p.precio_venta),
                stock: texto_decimal(p.stock),
                marca_nombre: marca_nombre,
                activo: p.activo,
            },
        );
        indice.push(
            ProductInfo {
                id: p.id,
                nombre: p.nombre.clone(),
                precio_venta: p.precio_venta,
                stock: p.stock,
            },
        );
        k += 1;
    }
    proof {
        assert forall|k1: int, k2: int| 0 <= k1 <= k2 < filas@.len() implies lex_menor_igual(
            (#[trigger] filas@[k1]).nombre@,
            (#[trigger] filas@[k2]).nombre@,
        ) by {
            assert(fila_inventario_de(*almacen, filas@[k1], indice@[k1], ordenados@[k1]));
            assert(fila_inventario_de(*almacen, filas@[k2], indice@[k2], ordenados@[k2]));
            assert(lex_menor_igual(ordenados@[k1].nombre@, ordenados@[k2].nombre@));
        }
        assert forall|j: int| 0 <= j < filas@.len() implies #[trigger] fila_del_inventario(
            *almacen,
            filas@[j],
            indice@[j],
        ) by {
            assert(producto_de_la_tabla(
                ordenados@[j],
                almacen.productos@,
                almacen.productos@.len() as int,
            ));
            let i = choose|i: int|
                0 <= i < almacen.productos@.len() && #[trigger] almacen.productos@[i]
                    == ordenados@[j];
            assert(fila_inventario_de(*almacen, filas@[j], indice@[j], almacen.productos@[i]));
        }
        assert forall|i: int| 0 <= i < almacen.productos@.len() implies producto_en_filas(
            *almacen,
            #[trigger] almacen.productos@[i],
            filas@,
            indice@,
        ) by {
            assert(producto_en_listado(almacen.productos@[i], ordenados@));
            let j = choose|j: int|
                0 <= j < ordenados@.len() && #[trigger] ordenados@[j] == almacen.productos@[i];
            assert(fila_inventario_de(*almacen, filas@[j], indice@[j], almacen.productos@[i]));
        }
    }
    (filas, indice)
}

/// Look a row position up in a listing's index.
pub fn get_product_by_index(indice: &Vec<ProductInfo>, index: i32) -> (r: Option<ProductInfo>)
    ensures
        r is Some <==> (0 <= index && (index as int) < indice@.len()),
        r matches Some(p) ==> {
            let e = indice@[index as int];
            p.id == e.id && p.nombre@ == e.nombre@ && p.precio_venta == e.precio_venta && p.stock
                == e.stock
        },
{
    if index < 0 {
        return None;
    }
    let i = index as usize;
    if i >= indice.len() {
        return None;
    }
    let p = &indice[i];
    Some(
        ProductInfo {
            id: p.id,
            nombre: p.nombre.clone(),
            precio_venta: p.precio_venta,
            stock: p.stock,
        },
    )
}

/// Delete the product shown on one row of a listing, going through the
/// listing's own index.  An out-of-range row deletes nothing.
pub fn delete_product_by_index(
    almacen: &mut Almacen,
    indice: &Vec<ProductInfo>,
    index: i32,
) -> (r: Result<bool, ErrorAlmacen>)
    requires
        old(almacen).inv(),
    ensures
        final(almacen).inv(),
        !(0 <= index && (index as int) < indice@.len()) ==> r
            == Result::<bool, ErrorAlmacen>::Ok(false) && crate::productos::iguales(
            *old(almacen),
            *final(almacen),
        ),
        (0 <= index && (index as int) < indice@.len()) ==> {
            let id = indice@[index as int].id;
            &&& ((r == Result::<bool, ErrorAlmacen>::Ok(false)) <==> !old(almacen).tiene_producto(
                id,
            ))
            &&& ((r == Result::<bool, ErrorAlmacen>::Err(ErrorAlmacen::IntegridadReferencial))
                <==> (old(almacen).tiene_producto(id) && old(almacen).producto_con_historial(id)))
            &&& (r matches Err(e) ==> e == ErrorAlmacen::IntegridadReferencial)
            &&& (r is Err || r == Result::<bool, ErrorAlmacen>::Ok(false) ==> crate::productos::iguales(
                *old(almacen),
                *final(almacen),
            ))
            &&& (r == Result::<bool, ErrorAlmacen>::Ok(true) ==> final(almacen).productos@ =~= old(
                almacen,
            ).productos@.remove(old(almacen).indice_producto_spec(id))
                && crate::productos::solo_productos_cambiados(*old(almacen), *final(almacen)))
        },
{
    match get_product_by_index(indice, index) {
        Some(info) => almacen.eliminar_producto(info.id),
        None => Ok(false),
    }
}

// ---------------------------------------------------------------------------
// Numeric input filtering.
// ---------------------------------------------------------------------------

/// The characters `filter_numeric` keeps, processed left to right:
/// `punto_visto` records whether a decimal point was already kept and
/// `vacio` whether nothing has been kept yet.
pub open spec fn filtro_crudo(
    s: Seq<char>,
    permite_decimal: bool,
    permite_negativo: bool,
    punto_visto: bool,
    vacio: bool,
) -> Seq<char>
    decreases s.len(),
{
    if s.len() == 0 {
        s
    } else {
        let c = s.first();
        if es_digito_char(c) {
            seq![c] + filtro_crudo(s.drop_first(), permite_decimal, permite_negativo, punto_visto, false)
        } else if c == '.' && permite_decimal && !punto_visto {
            seq![c] + filtro_crudo(s.drop_first(), permite_decimal, permite_negativo, true, false)
        } else if c == '-' && permite_negativo && vacio {
            seq![c] + filtro_crudo(s.drop_first(), permite_decimal, permite_negativo, punto_visto, false)
        } else {
            filtro_crudo(s.drop_first(), permite_decimal, permite_negativo, punto_visto, vacio)
        }
    }
}

pub open spec fn tiene_digito(s: Seq<char>) -> bool {
    exists|i: int| 0 <= i < s.len() && es_digito_char(#[trigger] s[i])
}

/// What `filter_numeric` returns: the kept characters, or nothing at all if
/// no digit survived.
pub open spec fn filtro_numerico(
    s: Seq<char>,
    permite_decimal: bool,
    permite_negativo: bool,
) -> Seq<char> {
    let crudo = filtro_crudo(s, permite_decimal, permite_negativo, false, true);
    if tiene_digito(crudo) {
        crudo
    } else {
        Seq::empty()
    }
}

/// Keep only the characters that form a number: digits always, at most one
/// decimal point when allowed, a leading minus sign when allowed.  If no
/// digit survives, the whole result is empty.
#[verifier::loop_isolation(false)]
pub fn filter_numeric(input: &str, allow_decimal: bool, allow_negative: bool) -> (r: String)
    ensures
        r@ == filtro_numerico(input@, allow_decimal, allow_negative),
{
    let n = input.unicode_len();
    let mut resultado = String::new();
    let mut tiene_punto = false;
    let mut tiene_dig = false;
    let mut vacio = true;
    let mut i: usize = 0;
    proof {
        assert(input@.skip(0) =~= input@);
        assert(resultado@ + filtro_crudo(input@, allow_decimal, allow_negative, false, true)
            =~= filtro_crudo(input@, allow_decimal, allow_negative, false, true));
    }
    while i < n
        invariant
            i <= n,
            n == input@.len(),
            vacio == (resultado@.len() == 0),
            filtro_crudo(input@, allow_decimal, allow_negative, false, true) == resultado@
                + filtro_crudo(
                input@.skip(i as int),
                allow_decimal,
                allow_negative,
                tiene_punto,
                vacio,
            ),
            tiene_dig == tiene_digito(resultado@),
        decreases n - i,
    {
        let c = input.get_char(i);
        proof {
            assert(input@.skip(i as int).first() == input@[i as int]);
            assert(input@.skip(i as int).drop_first() =~= input@.skip(i as int + 1));
        }
        let ghost antes = resultado@;
        let u = c as u32;
        if 48 <= u && u <= 57 {
            let d = (u - 48) as u8;
            let trozo = digito_texto(d);
            proof {
                assert(crate::texto::digito(d as int) as u32 == c as u32);
                assert(crate::texto::digito(d as int) == c);
                assert(trozo@ =~= seq![c]);
            }
            resultado.append(trozo);
            proof {
                assert(resultado@ =~= antes + seq![c]);
                assert(es_digito_char(resultado@[antes.len() as int]));
                assert(tiene_digito(resultado@));
            }
            tiene_dig = true;
            vacio = false;
        } else if c == '.' && allow_decimal && !tiene_punto {
            proof {
                reveal_strlit(".");
                assert("."@ =~= seq![c]);
            }
            resultado.append(".");
            proof {
                assert(resultado@ =~= antes + seq![c]);
                lema_sin_digito_nuevo(antes, c);
            }
            tiene_punto = true;
            vacio = false;
        } else if c == '-' && allow_negative && vacio {
            proof {
                reveal_strlit("-");
                assert("-"@ =~= seq![c]);
            }
            resultado.append("-");
            proof {
                assert(resultado@ =~= antes + seq![c]);
                lema_sin_digito_nuevo(antes, c);
            }
            vacio = false;
        }
        i += 1;
    }
    proof {
        assert(input@.skip(n as int) =~= Seq::<char>::empty());
        assert(filtro_crudo(
            Seq::<char>::empty(),
            allow_decimal,
            allow_negative,
            tiene_punto,
            vacio,
        ) =~= Seq::<char>::empty());
        assert(resultado@ + Seq::<char>::empty() =~= resultado@);
    }
    if tiene_dig {
        resultado
    } else {
        proof {
            assert(filtro_numerico(input@, allow_decimal, allow_negative) =~= Seq::<
                char,
            >::empty());
        }
        String::new()
    }
}

/// Appending a non-digit does not create a digit.
proof fn lema_sin_digito_nuevo(s: Seq<char>, c: char)
    requires
        !es_digito_char(c),
    ensures
        tiene_digito(s + seq![c]) == tiene_digito(s),
{
    let t = s + seq![c];
    if tiene_digito(t) {
        let i = choose|i: int| 0 <= i < t.len() && es_digito_char(#[trigger] t[i]);
        if i < s.len() {
            assert(s[i] == t[i]);
            assert(tiene_digito(s));
        } else {
            assert(t[i] == c);
        }
    }
    if tiene_digito(s) {
        let i = choose|i: int| 0 <= i < s.len() && es_digito_char(#[trigger] s[i]);
        assert(t[i] == s[i]);
        assert(tiene_digito(t));
    }
}

} // verus!
