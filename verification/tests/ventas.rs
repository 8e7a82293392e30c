//! End-to-end scenarios for the sale recording engine: success, refusal
//! with full rollback, reversal, and sequential competition for stock.

use bodex::almacen::Almacen;
use bodex::models::{ErrorAlmacen, ItemVenta, ProductoNuevo};

fn producto(nombre: &str, precio_venta: u64, stock: u64) -> ProductoNuevo {
    ProductoNuevo {
        nombre: nombre.to_string(),
        precio_neto: precio_venta / 2,
        precio_venta,
        stock,
        descripcion: None,
        codigo: None,
        activo: true,
        fecha_vencimiento: None,
        marca_id: None,
    }
}

#[test]
fn venta_simple_descuenta_stock_y_total_exacto() {
    // Product with stock 10 at 5.00; selling 3 units leaves 7 and a 15.00 sale.
    let mut a = Almacen::nuevo();
    let pid = a.crear_producto(&producto("Harina", 500, 10)).unwrap();
    let items = vec![ItemVenta { producto_id: pid, cantidad: 3, precio_unitario: 500 }];
    let vid = a.registrar_venta(&items, 1_000).unwrap();
    assert_eq!(a.obtener_producto_por_id(pid).unwrap().stock, 7);
    let venta = a.obtener_venta_con_detalles(vid).unwrap();
    assert_eq!(venta.venta.total, 1500);
    assert_eq!(venta.venta.fecha, 1_000);
    assert_eq!(venta.detalles.len(), 1);
    assert_eq!(venta.detalles[0].cantidad, 3);
    assert_eq!(venta.detalles[0].subtotal, 1500);
    assert_eq!(venta.detalles[0].nombre_producto, "Harina");
}

#[test]
fn venta_de_varios_productos_suma_subtotales() {
    let mut a = Almacen::nuevo();
    let p1 = a.crear_producto(&producto("Arroz", 250, 20)).unwrap();
    let p2 = a.crear_producto(&producto("Azucar", 199, 8)).unwrap();
    let items = vec![
        ItemVenta { producto_id: p1, cantidad: 4, precio_unitario: 250 },
        ItemVenta { producto_id: p2, cantidad: 2, precio_unitario: 199 },
    ];
    let vid = a.registrar_venta(&items, 5).unwrap();
    let venta = a.obtener_venta_con_detalles(vid).unwrap();
    assert_eq!(venta.venta.total, 4 * 250 + 2 * 199);
    assert_eq!(a.obtener_producto_por_id(p1).unwrap().stock, 16);
    assert_eq!(a.obtener_producto_por_id(p2).unwrap().stock, 6);
}

#[test]
fn venta_insuficiente_no_cambia_nada() {
    // Product with stock 2; asking 5 fails and nothing is persisted.
    let mut a = Almacen::nuevo();
    let pid = a.crear_producto(&producto("Cafe", 100, 2)).unwrap();
    let items = vec![ItemVenta { producto_id: pid, cantidad: 5, precio_unitario: 100 }];
    let r = a.registrar_venta(&items, 9);
    assert_eq!(r, Err(ErrorAlmacen::StockInsuficiente(pid)));
    assert_eq!(a.obtener_producto_por_id(pid).unwrap().stock, 2);
    assert!(a.obtener_ventas().is_empty());
    assert!(a.obtener_detalles_venta(1).is_empty());
}

#[test]
fn venta_parcialmente_cubierta_revierte_todo() {
    // The first line is coverable, the second is not: the whole sale aborts
    // and the first product's stock is untouched.
    let mut a = Almacen::nuevo();
    let p1 = a.crear_producto(&producto("Sal", 50, 10)).unwrap();
    let p2 = a.crear_producto(&producto("Aceite", 700, 1)).unwrap();
    let items = vec![
        ItemVenta { producto_id: p1, cantidad: 2, precio_unitario: 50 },
        ItemVenta { producto_id: p2, cantidad: 3, precio_unitario: 700 },
    ];
    let r = a.registrar_venta(&items, 0);
    assert_eq!(r, Err(ErrorAlmacen::StockInsuficiente(p2)));
    assert_eq!(a.obtener_producto_por_id(p1).unwrap().stock, 10);
    assert_eq!(a.obtener_producto_por_id(p2).unwrap().stock, 1);
    assert!(a.obtener_ventas().is_empty());
}

#[test]
fn carrito_vacio_es_item_invalido() {
    let mut a = Almacen::nuevo();
    let r = a.registrar_venta(&vec![], 0);
    assert_eq!(r, Err(ErrorAlmacen::ItemInvalido));
}

#[test]
fn cantidad_cero_es_item_invalido() {
    let mut a = Almacen::nuevo();
    let pid = a.crear_producto(&producto("Te", 300, 5)).unwrap();
    let items = vec![ItemVenta { producto_id: pid, cantidad: 0, precio_unitario: 300 }];
    let r = a.registrar_venta(&items, 0);
    assert_eq!(r, Err(ErrorAlmacen::ItemInvalido));
    assert_eq!(a.obtener_producto_por_id(pid).unwrap().stock, 5);
}

#[test]
fn producto_desconocido_es_stock_insuficiente() {
    let mut a = Almacen::nuevo();
    let items = vec![ItemVenta { producto_id: 77, cantidad: 1, precio_unitario: 10 }];
    let r = a.registrar_venta(&items, 0);
    assert_eq!(r, Err(ErrorAlmacen::StockInsuficiente(77)));
}

#[test]
fn total_desbordado_es_rechazado() {
    let mut a = Almacen::nuevo();
    let pid = a.crear_producto(&producto("Oro", u64::MAX, u64::MAX)).unwrap();
    let items = vec![ItemVenta { producto_id: pid, cantidad: 2, precio_unitario: u64::MAX }];
    let r = a.registrar_venta(&items, 0);
    assert_eq!(r, Err(ErrorAlmacen::TotalExcedido));
    assert_eq!(a.obtener_producto_por_id(pid).unwrap().stock, u64::MAX);
}

#[test]
fn dos_lineas_del_mismo_producto_se_acumulan() {
    // Two lines of the same product succeed only if their combined quantity
    // is covered.
    let mut a = Almacen::nuevo();
    let pid = a.crear_producto(&producto("Pan", 100, 5)).unwrap();
    let items = vec![
        ItemVenta { producto_id: pid, cantidad: 3, precio_unitario: 100 },
        ItemVenta { producto_id: pid, cantidad: 3, precio_unitario: 100 },
    ];
    let r = a.registrar_venta(&items, 0);
    assert_eq!(r, Err(ErrorAlmacen::StockInsuficiente(pid)));
    assert_eq!(a.obtener_producto_por_id(pid).unwrap().stock, 5);
    let items2 = vec![
        ItemVenta { producto_id: pid, cantidad: 3, precio_unitario: 100 },
        ItemVenta { producto_id: pid, cantidad: 2, precio_unitario: 100 },
    ];
    assert!(a.registrar_venta(&items2, 0).is_ok());
    assert_eq!(a.obtener_producto_por_id(pid).unwrap().stock, 0);
}

#[test]
fn reverso_restaura_stock_y_borra_la_venta() {
    let mut a = Almacen::nuevo();
    let p1 = a.crear_producto(&producto("Leche", 120, 9)).unwrap();
    let p2 = a.crear_producto(&producto("Queso", 450, 4)).unwrap();
    let items = vec![
        ItemVenta { producto_id: p1, cantidad: 5, precio_unitario: 120 },
        ItemVenta { producto_id: p2, cantidad: 1, precio_unitario: 450 },
    ];
    let vid = a.registrar_venta(&items, 33).unwrap();
    assert_eq!(a.obtener_producto_por_id(p1).unwrap().stock, 4);
    assert_eq!(a.obtener_producto_por_id(p2).unwrap().stock, 3);
    assert_eq!(a.eliminar_venta(vid), Ok(true));
    assert_eq!(a.obtener_producto_por_id(p1).unwrap().stock, 9);
    assert_eq!(a.obtener_producto_por_id(p2).unwrap().stock, 4);
    assert!(a.obtener_ventas().is_empty());
    assert!(a.obtener_venta_con_detalles(vid).is_none());
    assert!(a.obtener_detalles_venta(vid).is_empty());
}

#[test]
fn reverso_de_venta_inexistente_no_toca_nada() {
    let mut a = Almacen::nuevo();
    let pid = a.crear_producto(&producto("Yogur", 80, 6)).unwrap();
    let r = a.eliminar_venta(123);
    assert_eq!(r, Err(ErrorAlmacen::VentaNoEncontrada));
    assert_eq!(a.obtener_producto_por_id(pid).unwrap().stock, 6);
}

#[test]
fn ventas_en_competencia_solo_una_gana() {
    // Two carts against the same product whose combined demand exceeds the
    // stock: whichever commits first wins, the other sees the refusal.
    let mut a = Almacen::nuevo();
    let pid = a.crear_producto(&producto("Vino", 900, 10)).unwrap();
    let carrito1 = vec![ItemVenta { producto_id: pid, cantidad: 7, precio_unitario: 900 }];
    let carrito2 = vec![ItemVenta { producto_id: pid, cantidad: 6, precio_unitario: 900 }];
    assert!(a.registrar_venta(&carrito1, 1).is_ok());
    let r = a.registrar_venta(&carrito2, 2);
    assert_eq!(r, Err(ErrorAlmacen::StockInsuficiente(pid)));
    assert_eq!(a.obtener_producto_por_id(pid).unwrap().stock, 3);
    assert_eq!(a.obtener_ventas().len(), 1);
}

#[test]
fn estadisticas_cuentan_y_suman_en_rango() {
    let mut a = Almacen::nuevo();
    let pid = a.crear_producto(&producto("Pasta", 200, 100)).unwrap();
    let item = |c: u64| vec![ItemVenta { producto_id: pid, cantidad: c, precio_unitario: 200 }];
    a.registrar_venta(&item(1), 10).unwrap(); // 200 at t=10
    a.registrar_venta(&item(2), 20).unwrap(); // 400 at t=20
    a.registrar_venta(&item(3), 30).unwrap(); // 600 at t=30
    let (cuenta, suma) = a.obtener_estadisticas_ventas(10, 20);
    assert_eq!(cuenta, 2);
    assert_eq!(suma, 600);
    let (todo_c, todo_s) = a.obtener_estadisticas_ventas(i64::MIN, i64::MAX);
    assert_eq!(todo_c, 3);
    assert_eq!(todo_s, 1200);
    let (nada_c, nada_s) = a.obtener_estadisticas_ventas(100, 200);
    assert_eq!(nada_c, 0);
    assert_eq!(nada_s, 0);
}

#[test]
fn mas_vendidos_ordena_y_corta() {
    let mut a = Almacen::nuevo();
    let p1 = a.crear_producto(&producto("Galletas", 100, 50)).unwrap();
    let p2 = a.crear_producto(&producto("Jugo", 300, 50)).unwrap();
    let p3 = a.crear_producto(&producto("Agua", 50, 50)).unwrap();
    let _sin_ventas = a.crear_producto(&producto("Velas", 75, 50)).unwrap();
    let compra = |pid: i64, c: u64, p: u64| ItemVenta {
        producto_id: pid,
        cantidad: c,
        precio_unitario: p,
    };
    a.registrar_venta(&vec![compra(p1, 2, 100), compra(p2, 8, 300)], 0).unwrap();
    a.registrar_venta(&vec![compra(p3, 5, 50)], 1).unwrap();
    let todos = a.obtener_productos_mas_vendidos(10);
    assert_eq!(todos.len(), 3);
    assert_eq!(todos[0], (p2, "Jugo".to_string(), 8, 8 * 300));
    assert_eq!(todos[1], (p3, "Agua".to_string(), 5, 5 * 50));
    assert_eq!(todos[2], (p1, "Galletas".to_string(), 2, 2 * 100));
    let top2 = a.obtener_productos_mas_vendidos(2);
    assert_eq!(top2.len(), 2);
    assert_eq!(top2[0].0, p2);
    assert_eq!(top2[1].0, p3);
}

#[test]
fn reverso_que_desbordaria_el_stock_no_toca_nada() {
    // After the sale, the product is restocked almost to the machine limit;
    // restoring the sold units would overflow, so the reversal refuses and
    // leaves both the stock and the sale exactly as they were.
    let mut a = Almacen::nuevo();
    let pid = a.crear_producto(&producto("Tornillos", 10, 10)).unwrap();
    let items = vec![ItemVenta { producto_id: pid, cantidad: 5, precio_unitario: 10 }];
    let vid = a.registrar_venta(&items, 0).unwrap();
    assert!(a.incrementar_stock(pid, u64::MAX - 7));
    assert_eq!(a.obtener_producto_por_id(pid).unwrap().stock, u64::MAX - 2);
    assert_eq!(a.eliminar_venta(vid), Err(ErrorAlmacen::StockExcedido));
    assert_eq!(a.obtener_producto_por_id(pid).unwrap().stock, u64::MAX - 2);
    assert_eq!(a.obtener_ventas().len(), 1);
}

#[test]
fn reverso_no_perturba_otras_ventas() {
    let mut a = Almacen::nuevo();
    let pid = a.crear_producto(&producto("Cuadernos", 150, 20)).unwrap();
    let item = |c: u64| vec![ItemVenta { producto_id: pid, cantidad: c, precio_unitario: 150 }];
    let v1 = a.registrar_venta(&item(4), 1).unwrap();
    let v2 = a.registrar_venta(&item(6), 2).unwrap();
    assert_eq!(a.obtener_producto_por_id(pid).unwrap().stock, 10);
    assert_eq!(a.eliminar_venta(v2), Ok(true));
    assert_eq!(a.obtener_producto_por_id(pid).unwrap().stock, 16);
    let restante = a.obtener_venta_con_detalles(v1).unwrap();
    assert_eq!(restante.venta.total, 600);
    assert_eq!(restante.detalles.len(), 1);
}

#[test]
fn mensajes_de_error_listos_para_mostrar() {
    assert_eq!(
        ErrorAlmacen::VentaNoEncontrada.mensaje(),
        "La venta indicada no existe"
    );
    assert!(!ErrorAlmacen::StockInsuficiente(4).mensaje().is_empty());
    assert!(!ErrorAlmacen::ItemInvalido.mensaje().is_empty());
    assert!(!ErrorAlmacen::TotalExcedido.mensaje().is_empty());
}

#[test]
fn listado_de_ventas_mas_reciente_primero() {
    let mut a = Almacen::nuevo();
    let pid = a.crear_producto(&producto("Arroz", 120, 50)).unwrap();
    let item = |c: u64| vec![ItemVenta { producto_id: pid, cantidad: c, precio_unitario: 120 }];
    let v1 = a.registrar_venta(&item(1), 100).unwrap();
    let v2 = a.registrar_venta(&item(2), 300).unwrap();
    let v3 = a.registrar_venta(&item(3), 200).unwrap();
    let ventas = a.obtener_ventas();
    assert_eq!(ventas.iter().map(|v| v.id).collect::<Vec<_>>(), vec![v2, v3, v1]);
    assert_eq!(ventas[0].fecha, 300);
}
