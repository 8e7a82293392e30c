//! The SKU validator: format rules for product codes and the uniqueness
//! check against the store.  It gates product creation and update, not sale
//! recording.
//!
//! An empty (or all-whitespace) code is valid, because the SKU is optional.
//! A non-empty code must be at least seven characters long and then match,
//! in order of preference, the strict shape (three upper-case letters, a
//! hyphen, three digits), a case-insensitive variant of that shape, or a
//! generic alphanumeric-plus-hyphen form of seven to twenty characters.

use vstd::prelude::*;
use vstd::string::StrSliceExecFns;

use crate::almacen::Almacen;
use crate::texto::{recortado, recortar, textos_iguales};

verus! {

/// Outcome of a SKU validation: a verdict and, on rejection, a reason
/// suitable for direct display.
#[derive(Debug, Clone)]
pub struct SkuValidationResult {
    pub es_valido: bool,
    pub error: Option<String>,
}

// ---------------------------------------------------------------------------
// Character classes and the three accepted shapes.
// ---------------------------------------------------------------------------

pub open spec fn es_mayuscula(c: char) -> bool {
    65 <= c as u32 && c as u32 <= 90
}

pub open spec fn es_letra(c: char) -> bool {
    es_mayuscula(c) || (97 <= c as u32 && c as u32 <= 122)
}

pub open spec fn es_digito(c: char) -> bool {
    crate::texto::es_digito_char(c)
}

pub open spec fn es_generico(c: char) -> bool {
    es_letra(c) || es_digito(c) || c == '-'
}

/// Three upper-case letters, a hyphen, three digits.
pub open spec fn patron_estricto(s: Seq<char>) -> bool {
    &&& s.len() == 7
    &&& forall|i: int| 0 <= i < 3 ==> es_mayuscula(#[trigger] s[i])
    &&& s[3] == '-'
    &&& forall|i: int| 4 <= i < 7 ==> es_digito(#[trigger] s[i])
}

/// Three letters of either case, an optional hyphen, three digits.
pub open spec fn patron_flexible(s: Seq<char>) -> bool {
    ||| {
        &&& s.len() == 7
        &&& forall|i: int| 0 <= i < 3 ==> es_letra(#[trigger] s[i])
        &&& s[3] == '-'
        &&& forall|i: int| 4 <= i < 7 ==> es_digito(#[trigger] s[i])
    }
    ||| {
        &&& s.len() == 6
        &&& forall|i: int| 0 <= i < 3 ==> es_letra(#[trigger] s[i])
        &&& forall|i: int| 3 <= i < 6 ==> es_digito(#[trigger] s[i])
    }
}

/// Seven to twenty characters, each a letter, digit or hyphen.
pub open spec fn patron_generico(s: Seq<char>) -> bool {
    &&& 7 <= s.len() <= 20
    &&& forall|i: int| 0 <= i < s.len() ==> es_generico(#[trigger] s[i])
}

/// The format verdict on a raw code: trimmed, empty passes; anything else
/// needs at least seven characters and one of the three shapes.
pub open spec fn sku_formato_valido(s: Seq<char>) -> bool {
    let t = recortado(s);
    ||| t.len() == 0
    ||| (t.len() >= 7 && (patron_estricto(t) || patron_flexible(t) || patron_generico(t)))
}

/// The reason the format check reports for a rejected code: too short, or
/// matching none of the shapes.
pub open spec fn mensaje_formato(s: Seq<char>) -> Seq<char> {
    if recortado(s).len() < 7 {
        "El SKU debe tener al menos 7 caracteres"@
    } else {
        "Formato de SKU inválido. Use letras, números y guiones (7-20 caracteres)"@
    }
}

/// The reason the uniqueness check reports for a taken code.
pub open spec fn mensaje_duplicado() -> Seq<char> {
    "El SKU ya está registrado en la base de datos"@
}

// ---------------------------------------------------------------------------
// Executable checks.
// ---------------------------------------------------------------------------

fn clase_mayuscula(c: char) -> (r: bool)
    ensures
        r == es_mayuscula(c),
{
    let u = c as u32;
    65 <= u && u <= 90
}

fn clase_letra(c: char) -> (r: bool)
    ensures
        r == es_letra(c),
{
    let u = c as u32;
    (65 <= u && u <= 90) || (97 <= u && u <= 122)
}

fn clase_digito(c: char) -> (r: bool)
    ensures
        r == es_digito(c),
{
    let u = c as u32;
    48 <= u && u <= 57
}

fn clase_generico(c: char) -> (r: bool)
    ensures
        r == es_generico(c),
{
    clase_letra(c) || clase_digito(c) || c == '-'
}

#[verifier::loop_isolation(false)]
fn todas_mayusculas(t: &str, desde: usize, hasta: usize) -> (r: bool)
    requires
        desde <= hasta <= t@.len(),
    ensures
        r == forall|i: int| desde <= i < hasta ==> es_mayuscula(#[trigger] t@[i]),
{
    let mut k: usize = desde;
    while k < hasta
        invariant
            desde <= k <= hasta,
            forall|i: int| desde <= i < k ==> es_mayuscula(#[trigger] t@[i]),
        decreases hasta - k,
    {
        if !clase_mayuscula(t.get_char(k)) {
            return false;
        }
        k += 1;
    }
    true
}

#[verifier::loop_isolation(false)]
fn todas_letras(t: &str, desde: usize, hasta: usize) -> (r: bool)
    requires
        desde <= hasta <= t@.len(),
    ensures
        r == forall|i: int| desde <= i < hasta ==> es_letra(#[trigger] t@[i]),
{
    let mut k: usize = desde;
    while k < hasta
        invariant
            desde <= k <= hasta,
            forall|i: int| desde <= i < k ==> es_letra(#[trigger] t@[i]),
        decreases hasta - k,
    {
        if !clase_letra(t.get_char(k)) {
            return false;
        }
        k += 1;
    }
    true
}

#[verifier::loop_isolation(false)]
fn todas_digitos(t: &str, desde: usize, hasta: usize) -> (r: bool)
    requires
        desde <= hasta <= t@.len(),
    ensures
        r == forall|i: int| desde <= i < hasta ==> es_digito(#[trigger] t@[i]),
{
    let mut k: usize = desde;
    while k < hasta
        invariant
            desde <= k <= hasta,
            forall|i: int| desde <= i < k ==> es_digito(#[trigger] t@[i]),
        decreases hasta - k,
    {
        if !clase_digito(t.get_char(k)) {
            return false;
        }
        k += 1;
    }
    true
}

#[verifier::loop_isolation(false)]
fn todas_genericas(t: &str, n: usize) -> (r: bool)
    requires
        n == t@.len(),
    ensures
        r == forall|i: int| 0 <= i < n ==> es_generico(#[trigger] t@[i]),
{
    let mut k: usize = 0;
    while k < n
        invariant
            k <= n,
            forall|i: int| 0 <= i < k ==> es_generico(#[trigger] t@[i]),
        decreases n - k,
    {
        if !clase_generico(t.get_char(k)) {
            return false;
        }
        k += 1;
    }
    true
}

/// Validate the shape of a SKU code.  The verdict is exactly
/// [`sku_formato_valido`]; a rejection carries exactly the reason
/// [`mensaje_formato`] gives for the code.
pub fn validar_formato_sku(sku: &str) -> (r: SkuValidationResult)
    ensures
        r.es_valido == sku_formato_valido(sku@),
        r.es_valido ==> r.error is None,
        !r.es_valido ==> (r.error matches Some(e) && e@ == mensaje_formato(sku@)),
{
    let t = recortar(sku);
    let n = t.unicode_len();
    if n == 0 {
        return SkuValidationResult { es_valido: true, error: None };
    }
    if n < 7 {
        return SkuValidationResult {
            es_valido: false,
            error: Some("El SKU debe tener al menos 7 caracteres".to_owned()),
        };
    }
    let estricto = n == 7 && todas_mayusculas(t, 0, 3) && t.get_char(3) == '-' && todas_digitos(
        t,
        4,
        7,
    );
    let flexible = n == 7 && todas_letras(t, 0, 3) && t.get_char(3) == '-' && todas_digitos(
        t,
        4,
        7,
    );
    let generico = n <= 20 && todas_genericas(t, n);
    proof {
        assert(estricto == patron_estricto(t@));
        assert(flexible == patron_flexible(t@));
        assert(generico == patron_generico(t@));
    }
    if estricto || flexible || generico {
        SkuValidationResult { es_valido: true, error: None }
    } else {
        SkuValidationResult {
            es_valido: false,
            error: Some(
                "Formato de SKU inválido. Use letras, números y guiones (7-20 caracteres)".to_owned(),
            ),
        }
    }
}

// ---------------------------------------------------------------------------
// Uniqueness against the store.
// ---------------------------------------------------------------------------

impl Almacen {
    /// Is this code (after trimming) already carried by some product?  An
    /// empty code reads as free, because the SKU is optional.
    #[verifier::loop_isolation(false)]
    pub fn existe_sku(&self, codigo: &str) -> (r: bool)
        ensures
            r == (recortado(codigo@).len() > 0 && self.codigo_ocupado(recortado(codigo@))),
    {
        let t = recortar(codigo);
        if t.unicode_len() == 0 {
            return false;
        }
        let total = self.productos.len();
        let mut k: usize = 0;
        while k < total
            invariant
                k <= total,
                total == self.productos@.len(),
                forall|i: int|
                    0 <= i < k ==> !((#[trigger] self.productos@[i]).codigo matches Some(c) && c@
                        == t@),
            decreases total - k,
        {
            match &self.productos[k].codigo {
                Some(c) => {
                    if textos_iguales(c.as_str(), t) {
                        return true;
                    }
                },
                None => {},
            }
            k += 1;
        }
        false
    }
}

/// Free-standing form of the uniqueness check, reading the live store.
pub fn sku_existe(almacen: &Almacen, sku: &str) -> (r: bool)
    ensures
        r == (recortado(sku@).len() > 0 && almacen.codigo_ocupado(recortado(sku@))),
{
    almacen.existe_sku(sku)
}

/// Complete validation: the format check first (short-circuiting on
/// failure, returning that check's own verdict and message), then
/// uniqueness against the live store.
pub fn validar_sku_completo(almacen: &Almacen, sku: &str) -> (r: SkuValidationResult)
    ensures
        r.es_valido == (sku_formato_valido(sku@) && !(recortado(sku@).len() > 0
            && almacen.codigo_ocupado(recortado(sku@)))),
        r.es_valido ==> r.error is None,
        !sku_formato_valido(sku@) ==> (r.error matches Some(e) && e@ == mensaje_formato(sku@)),
        sku_formato_valido(sku@) && !r.es_valido ==> (r.error matches Some(e) && e@
            == mensaje_duplicado()),
{
    let formato = validar_formato_sku(sku);
    if !formato.es_valido {
        return formato;
    }
    if sku_existe(almacen, sku) {
        return SkuValidationResult {
            es_valido: false,
            error: Some("El SKU ya está registrado en la base de datos".to_owned()),
        };
    }
    SkuValidationResult { es_valido: true, error: None }
}

} // verus!
