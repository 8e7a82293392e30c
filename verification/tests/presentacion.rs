//! Presentation helpers: rendered inventory rows with their request-scoped
//! index, the product/brand join, text utilities and the numeric filter.

use bodex::almacen::Almacen;
use bodex::inventory::{
    delete_product_by_index, filter_numeric, get_inventory_rows_raw, get_product_by_index,
};
use bodex::models::{MarcaNueva, ProductoNuevo};
use bodex::texto::{contiene_sub, recortar, texto_decimal, texto_monto, textos_iguales};

fn producto(nombre: &str, precio_venta: u64, stock: u64) -> ProductoNuevo {
    ProductoNuevo {
        nombre: nombre.to_string(),
        precio_neto: precio_venta / 2,
        precio_venta,
        stock,
        descripcion: None,
        codigo: None,
        activo: true,
        fecha_vencimiento: None,
        marca_id: None,
    }
}

#[test]
fn filas_muestran_precio_stock_y_marcadores() {
    let mut a = Almacen::nuevo();
    let mid = a
        .crear_marca(&MarcaNueva {
            nombre: "Acme".to_string(),
            descripcion: None,
            logo: None,
            rif: None,
        })
        .unwrap();
    let mut con_todo = producto("Completo", 1234, 7);
    con_todo.codigo = Some("ABC-123".to_string());
    con_todo.marca_id = Some(mid);
    a.crear_producto(&con_todo).unwrap();
    a.crear_producto(&producto("Pelado", 5, 0)).unwrap();
    let (filas, indice) = get_inventory_rows_raw(&a);
    assert_eq!(filas.len(), 2);
    assert_eq!(indice.len(), 2);
    assert_eq!(filas[0].codigo, "ABC-123");
    assert_eq!(filas[0].precio_venta, "12.34");
    assert_eq!(filas[0].stock, "7");
    assert_eq!(filas[0].marca_nombre, "Acme");
    assert!(filas[0].activo);
    assert_eq!(filas[1].codigo, "S/C");
    assert_eq!(filas[1].precio_venta, "0.05");
    assert_eq!(filas[1].marca_nombre, "Sin Marca");
}

#[test]
fn indice_de_filas_apunta_al_producto() {
    let mut a = Almacen::nuevo();
    let p1 = a.crear_producto(&producto("Primero", 100, 1)).unwrap();
    let p2 = a.crear_producto(&producto("Segundo", 200, 2)).unwrap();
    let (_filas, indice) = get_inventory_rows_raw(&a);
    assert_eq!(get_product_by_index(&indice, 0).unwrap().id, p1);
    assert_eq!(get_product_by_index(&indice, 1).unwrap().id, p2);
    assert!(get_product_by_index(&indice, 2).is_none());
    assert!(get_product_by_index(&indice, -1).is_none());
    assert_eq!(delete_product_by_index(&mut a, &indice, 0), Ok(true));
    assert!(a.obtener_producto_por_id(p1).is_none());
    assert_eq!(delete_product_by_index(&mut a, &indice, 5), Ok(false));
}

#[test]
fn join_de_productos_con_marca() {
    let mut a = Almacen::nuevo();
    let mid = a
        .crear_marca(&MarcaNueva {
            nombre: "Globex".to_string(),
            descripcion: None,
            logo: None,
            rif: None,
        })
        .unwrap();
    let mut p = producto("Taladro", 900, 3);
    p.marca_id = Some(mid);
    a.crear_producto(&p).unwrap();
    a.crear_producto(&producto("Clavo", 1, 1000)).unwrap();
    let join = a.obtener_productos_con_marca();
    assert_eq!(join.len(), 2);
    assert_eq!(join[0].nombre, "Clavo");
    assert_eq!(join[0].marca_nombre, None);
    assert_eq!(join[1].nombre, "Taladro");
    assert_eq!(join[1].marca_nombre.as_deref(), Some("Globex"));
}

#[test]
fn filas_del_inventario_ordenadas_por_nombre() {
    let mut a = Almacen::nuevo();
    let pz = a.crear_producto(&producto("Zeta", 100, 1)).unwrap();
    let pa = a.crear_producto(&producto("Alfa", 200, 2)).unwrap();
    let (filas, indice) = get_inventory_rows_raw(&a);
    assert_eq!(filas[0].nombre, "Alfa");
    assert_eq!(filas[1].nombre, "Zeta");
    assert_eq!(get_product_by_index(&indice, 0).unwrap().id, pa);
    assert_eq!(get_product_by_index(&indice, 1).unwrap().id, pz);
    assert_eq!(delete_product_by_index(&mut a, &indice, 0), Ok(true));
    assert!(a.obtener_producto_por_id(pa).is_none());
    assert!(a.obtener_producto_por_id(pz).is_some());
}

#[test]
fn montos_con_dos_decimales() {
    assert_eq!(texto_monto(0), "0.00");
    assert_eq!(texto_monto(5), "0.05");
    assert_eq!(texto_monto(50), "0.50");
    assert_eq!(texto_monto(500), "5.00");
    assert_eq!(texto_monto(1500), "15.00");
    assert_eq!(texto_monto(123456789), "1234567.89");
}

#[test]
fn decimales_sin_ceros_a_la_izquierda() {
    assert_eq!(texto_decimal(0), "0");
    assert_eq!(texto_decimal(7), "7");
    assert_eq!(texto_decimal(10), "10");
    assert_eq!(texto_decimal(90210), "90210");
    assert_eq!(texto_decimal(u64::MAX), "18446744073709551615");
}

#[test]
fn recorte_y_comparacion_de_textos() {
    assert_eq!(recortar("  hola  "), "hola");
    assert_eq!(recortar("\t\nuna frase\r"), "una frase");
    assert_eq!(recortar("    "), "");
    assert_eq!(recortar(""), "");
    assert_eq!(recortar("sin bordes"), "sin bordes");
    assert!(textos_iguales("abc", "abc"));
    assert!(!textos_iguales("abc", "abd"));
}

#[test]
fn busqueda_de_subcadenas_sin_caso() {
    assert!(contiene_sub("Cafetera Industrial", "tera"));
    assert!(contiene_sub("Cafetera", "CAFE"));
    assert!(contiene_sub("cualquier cosa", ""));
    assert!(!contiene_sub("corto", "mas largo que el texto"));
    assert!(!contiene_sub("abcdef", "ace"));
}

#[test]
fn filtro_numerico_basico() {
    assert_eq!(filter_numeric("12a3", false, false), "123");
    assert_eq!(filter_numeric("abc", false, false), "");
    assert_eq!(filter_numeric("", true, true), "");
}

#[test]
fn filtro_numerico_decimal() {
    assert_eq!(filter_numeric("1.2.3", true, false), "1.23");
    assert_eq!(filter_numeric("1.2.3", false, false), "123");
    assert_eq!(filter_numeric(".5", true, false), ".5");
}

#[test]
fn filtro_numerico_negativo() {
    assert_eq!(filter_numeric("-12", false, true), "-12");
    assert_eq!(filter_numeric("1-2", false, true), "12");
    assert_eq!(filter_numeric("-12", false, false), "12");
    // A sign with no digit at all collapses to nothing.
    assert_eq!(filter_numeric("-", false, true), "");
    assert_eq!(filter_numeric("-.", true, true), "");
}
