//! The SKU validator: format shapes, trimming, and uniqueness against the
//! live store.

use bodex::almacen::Almacen;
use bodex::models::ProductoNuevo;
use bodex::sku::{sku_existe, validar_formato_sku, validar_sku_completo};

fn producto_con_codigo(nombre: &str, codigo: Option<&str>) -> ProductoNuevo {
    ProductoNuevo {
        nombre: nombre.to_string(),
        precio_neto: 100,
        precio_venta: 150,
        stock: 10,
        descripcion: None,
        codigo: codigo.map(|c| c.to_string()),
        activo: true,
        fecha_vencimiento: None,
        marca_id: None,
    }
}

#[test]
fn formato_vacio_es_valido() {
    let r = validar_formato_sku("");
    assert!(r.es_valido);
    assert!(r.error.is_none());
}

#[test]
fn formato_solo_espacios_es_valido() {
    assert!(validar_formato_sku("   ").es_valido);
}

#[test]
fn formato_corto_es_invalido() {
    let r = validar_formato_sku("AB-12");
    assert!(!r.es_valido);
    assert!(r.error.is_some());
}

#[test]
fn formato_estricto_es_valido() {
    assert!(validar_formato_sku("ABC-123").es_valido);
}

#[test]
fn formato_flexible_es_valido() {
    assert!(validar_formato_sku("xyz-456").es_valido);
}

#[test]
fn formato_muy_corto_es_invalido() {
    assert!(!validar_formato_sku("ab").es_valido);
}

#[test]
fn formato_generico_es_valido() {
    assert!(validar_formato_sku("A1B2C3D4").es_valido);
    assert!(validar_formato_sku("1234567").es_valido);
    assert!(validar_formato_sku("con-guiones-123").es_valido);
}

#[test]
fn formato_con_simbolos_es_invalido() {
    assert!(!validar_formato_sku("ABC_1234").es_valido);
    assert!(!validar_formato_sku("ABC 1234").es_valido);
    assert!(!validar_formato_sku("ABC-123!").es_valido);
}

#[test]
fn formato_demasiado_largo_es_invalido() {
    // Twenty-one generic characters pass the length floor but exceed the cap.
    assert!(!validar_formato_sku("A12345678901234567890").es_valido);
    assert!(validar_formato_sku("A1234567890123456789").es_valido);
}

#[test]
fn formato_recorta_espacios_antes_de_validar() {
    assert!(validar_formato_sku("  ABC-123  ").es_valido);
    assert!(!validar_formato_sku("  AB-12  ").es_valido);
}

#[test]
fn unicidad_ve_el_almacen_vivo() {
    let mut a = Almacen::nuevo();
    assert!(!sku_existe(&a, "ABC-123"));
    a.crear_producto(&producto_con_codigo("Uno", Some("ABC-123"))).unwrap();
    assert!(sku_existe(&a, "ABC-123"));
    assert!(sku_existe(&a, "  ABC-123  "));
    assert!(!sku_existe(&a, "ABC-124"));
    assert!(!sku_existe(&a, ""));
    assert!(a.existe_sku("ABC-123"));
}

#[test]
fn validacion_completa_corta_en_formato() {
    let a = Almacen::nuevo();
    let r = validar_sku_completo(&a, "AB-12");
    assert!(!r.es_valido);
    assert!(r.error.is_some());
}

#[test]
fn validacion_completa_detecta_duplicado() {
    let mut a = Almacen::nuevo();
    a.crear_producto(&producto_con_codigo("Uno", Some("XYZ-789"))).unwrap();
    let r = validar_sku_completo(&a, "XYZ-789");
    assert!(!r.es_valido);
    assert!(r.error.is_some());
    let libre = validar_sku_completo(&a, "XYZ-788");
    assert!(libre.es_valido);
    assert!(libre.error.is_none());
    assert!(validar_sku_completo(&a, "").es_valido);
}

#[test]
fn mensajes_de_formato_son_los_descriptivos() {
    let corto = validar_formato_sku("AB-12");
    assert_eq!(corto.error.as_deref(), Some("El SKU debe tener al menos 7 caracteres"));
    let invalido = validar_formato_sku("ABC_1234");
    assert_eq!(
        invalido.error.as_deref(),
        Some("Formato de SKU inválido. Use letras, números y guiones (7-20 caracteres)")
    );
}

#[test]
fn validacion_completa_devuelve_el_mensaje_del_formato() {
    let mut a = Almacen::nuevo();
    a.crear_producto(&producto_con_codigo("Uno", Some("XYZ-789"))).unwrap();
    let corto = validar_sku_completo(&a, "AB-12");
    assert_eq!(corto.error.as_deref(), Some("El SKU debe tener al menos 7 caracteres"));
    let dup = validar_sku_completo(&a, "XYZ-789");
    assert_eq!(dup.error.as_deref(), Some("El SKU ya está registrado en la base de datos"));
}
