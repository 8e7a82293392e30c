//! Catalog CRUD: products, brands, users, the stock ledger primitives and
//! the closed enum mappings.

use bodex::almacen::Almacen;
use bodex::models::{
    ErrorAlmacen, ItemVenta, Marca, MarcaNueva, Medida, Producto, ProductoNuevo, Rol, TipoEmpaque,
};

fn producto(nombre: &str, precio_venta: u64, stock: u64) -> ProductoNuevo {
    ProductoNuevo {
        nombre: nombre.to_string(),
        precio_neto: precio_venta / 2,
        precio_venta,
        stock,
        descripcion: None,
        codigo: None,
        activo: true,
        fecha_vencimiento: None,
        marca_id: None,
    }
}

fn marca(nombre: &str) -> MarcaNueva {
    MarcaNueva { nombre: nombre.to_string(), descripcion: None, logo: None, rif: None }
}

#[test]
fn ledger_descuento_condicional() {
    let mut a = Almacen::nuevo();
    let pid = a.crear_producto(&producto("Atun", 350, 4)).unwrap();
    assert!(a.verificar_stock_suficiente(pid, 4));
    assert!(!a.verificar_stock_suficiente(pid, 5));
    assert!(!a.verificar_stock_suficiente(99, 1));
    assert!(a.reducir_stock(pid, 3));
    assert_eq!(a.obtener_producto_por_id(pid).unwrap().stock, 1);
    // Not enough left: the conditional decrement refuses and changes nothing.
    assert!(!a.reducir_stock(pid, 2));
    assert_eq!(a.obtener_producto_por_id(pid).unwrap().stock, 1);
    assert!(a.incrementar_stock(pid, 10));
    assert_eq!(a.obtener_producto_por_id(pid).unwrap().stock, 11);
    assert!(!a.incrementar_stock(99, 1));
    assert!(a.actualizar_stock(pid, 2));
    assert_eq!(a.obtener_producto_por_id(pid).unwrap().stock, 2);
}

#[test]
fn crear_producto_rechaza_codigo_tomado() {
    let mut a = Almacen::nuevo();
    let mut p = producto("Primero", 100, 1);
    p.codigo = Some("ABC-123".to_string());
    a.crear_producto(&p).unwrap();
    let mut q = producto("Segundo", 100, 1);
    q.codigo = Some("ABC-123".to_string());
    assert_eq!(a.crear_producto(&q), Err(ErrorAlmacen::CodigoDuplicado));
    assert_eq!(a.obtener_productos().len(), 1);
}

#[test]
fn crear_producto_rechaza_marca_muerta() {
    let mut a = Almacen::nuevo();
    let mut p = producto("Con marca", 100, 1);
    p.marca_id = Some(42);
    assert_eq!(a.crear_producto(&p), Err(ErrorAlmacen::IntegridadReferencial));
    let mid = a.crear_marca(&marca("Acme")).unwrap();
    p.marca_id = Some(mid);
    assert!(a.crear_producto(&p).is_ok());
}

#[test]
fn eliminar_producto_con_historial_es_rechazado() {
    let mut a = Almacen::nuevo();
    let pid = a.crear_producto(&producto("Vendido", 100, 10)).unwrap();
    a.registrar_venta(&vec![ItemVenta { producto_id: pid, cantidad: 1, precio_unitario: 100 }], 0)
        .unwrap();
    assert_eq!(a.eliminar_producto(pid), Err(ErrorAlmacen::IntegridadReferencial));
    assert_eq!(a.obtener_productos().len(), 1);
    // Retiring it instead is the supported path.
    assert!(a.activar_producto(pid, false));
    assert!(!a.obtener_producto_por_id(pid).unwrap().activo);
}

#[test]
fn eliminar_producto_sin_historial() {
    let mut a = Almacen::nuevo();
    let pid = a.crear_producto(&producto("Fugaz", 100, 1)).unwrap();
    assert_eq!(a.eliminar_producto(pid), Ok(true));
    assert!(a.obtener_producto_por_id(pid).is_none());
    assert_eq!(a.eliminar_producto(pid), Ok(false));
}

#[test]
fn actualizar_producto_reemplaza_por_id() {
    let mut a = Almacen::nuevo();
    let pid = a.crear_producto(&producto("Viejo", 100, 1)).unwrap();
    let nuevo = Producto {
        id: pid,
        nombre: "Nuevo".to_string(),
        precio_neto: 80,
        precio_venta: 160,
        stock: 12,
        descripcion: Some("mejorado".to_string()),
        codigo: Some("NVO-001".to_string()),
        activo: true,
        fecha_vencimiento: Some(20_000),
        marca_id: None,
    };
    assert_eq!(a.actualizar_producto(&nuevo), Ok(true));
    let leido = a.obtener_producto_por_id(pid).unwrap();
    assert_eq!(leido.nombre, "Nuevo");
    assert_eq!(leido.stock, 12);
    assert_eq!(leido.codigo.as_deref(), Some("NVO-001"));
    // Unknown id reports false.
    let ajeno = Producto { id: 999, ..nuevo };
    assert_eq!(a.actualizar_producto(&ajeno), Ok(false));
}

#[test]
fn buscar_productos_ignora_mayusculas() {
    let mut a = Almacen::nuevo();
    a.crear_producto(&producto("Cafe Molido", 100, 1)).unwrap();
    a.crear_producto(&producto("CAFETERA", 100, 1)).unwrap();
    a.crear_producto(&producto("Taza", 100, 1)).unwrap();
    let r = a.buscar_productos_por_nombre("cafe");
    assert_eq!(r.len(), 2);
    assert!(a.buscar_productos_por_nombre("te").iter().any(|p| p.nombre == "CAFETERA"));
    assert!(a.buscar_productos_por_nombre("zzz").is_empty());
}

#[test]
fn marcas_crud_completo() {
    let mut a = Almacen::nuevo();
    let mid = a.crear_marca(&marca("Acme")).unwrap();
    assert_eq!(a.crear_marca(&marca("Acme")), Err(ErrorAlmacen::MarcaDuplicada));
    let otra = a.crear_marca(&marca("Globex")).unwrap();
    assert_eq!(a.obtener_marcas().len(), 2);
    assert_eq!(a.obtener_marca_por_id(mid).unwrap().nombre, "Acme");
    assert!(a.obtener_marca_por_id(999).is_none());
    assert_eq!(a.buscar_marcas_por_nombre("glo").len(), 1);
    let cambiada = Marca {
        id: otra,
        nombre: "Globex Corp".to_string(),
        descripcion: None,
        logo: None,
        rif: Some("J-1".to_string()),
    };
    assert_eq!(a.actualizar_marca(&cambiada), Ok(true));
    assert_eq!(a.obtener_marca_por_id(otra).unwrap().nombre, "Globex Corp");
    let pisando = Marca { id: otra, nombre: "Acme".to_string(), descripcion: None, logo: None, rif: None };
    assert_eq!(a.actualizar_marca(&pisando), Err(ErrorAlmacen::MarcaDuplicada));
}

#[test]
fn listado_de_productos_ordenado_por_nombre() {
    let mut a = Almacen::nuevo();
    a.crear_producto(&producto("Zanahoria", 10, 1)).unwrap();
    a.crear_producto(&producto("Ajo", 10, 1)).unwrap();
    a.crear_producto(&producto("Miel", 10, 1)).unwrap();
    let listado = a.obtener_productos();
    let nombres: Vec<&str> = listado.iter().map(|p| p.nombre.as_str()).collect();
    assert_eq!(nombres, vec!["Ajo", "Miel", "Zanahoria"]);
}

#[test]
fn listado_de_marcas_ordenado_por_nombre() {
    let mut a = Almacen::nuevo();
    a.crear_marca(&marca("Zeta")).unwrap();
    a.crear_marca(&marca("Acme")).unwrap();
    a.crear_marca(&marca("Momento")).unwrap();
    let listado = a.obtener_marcas();
    let nombres: Vec<&str> = listado.iter().map(|m| m.nombre.as_str()).collect();
    assert_eq!(nombres, vec!["Acme", "Momento", "Zeta"]);
}

#[test]
fn eliminar_marca_deja_productos_sin_marca() {
    let mut a = Almacen::nuevo();
    let mid = a.crear_marca(&marca("Acme")).unwrap();
    let mut p = producto("Martillo", 100, 1);
    p.marca_id = Some(mid);
    let pid = a.crear_producto(&p).unwrap();
    assert!(a.eliminar_marca(mid));
    assert!(a.obtener_marca_por_id(mid).is_none());
    assert_eq!(a.obtener_producto_por_id(pid).unwrap().marca_id, None);
    assert!(!a.eliminar_marca(mid));
}

#[test]
fn usuarios_y_credenciales() {
    let mut a = Almacen::nuevo();
    let uid = a.crear_usuario("admin", "admin", Rol::Admin).unwrap();
    assert_eq!(
        a.crear_usuario("admin", "otra", Rol::Vendedor),
        Err(ErrorAlmacen::UsuarioDuplicado)
    );
    // Wrong credential, wrong user, then success; the login stamp advances.
    assert!(a.validar_usuario("admin", "mala", 50).is_none());
    assert!(a.validar_usuario("nadie", "admin", 50).is_none());
    let u = a.validar_usuario("admin", "admin", 50).unwrap();
    assert_eq!(u.id, uid);
    assert_eq!(u.rol, Rol::Admin);
    assert!(a.eliminar_usuario(uid));
    assert!(!a.eliminar_usuario(uid));
    assert!(a.validar_usuario("admin", "admin", 60).is_none());
}

#[test]
fn rol_texto_ida_y_vuelta() {
    assert_eq!(Rol::desde_texto("Admin"), Some(Rol::Admin));
    assert_eq!(Rol::desde_texto("Operador"), Some(Rol::Operador));
    assert_eq!(Rol::desde_texto("Vendedor"), Some(Rol::Vendedor));
    assert_eq!(Rol::desde_texto("Gerente"), None);
    assert_eq!(Rol::Admin.a_texto(), "Admin");
    assert_eq!(Rol::desde_texto(Rol::Operador.a_texto()), Some(Rol::Operador));
}

#[test]
fn medida_mapeo_cerrado() {
    assert_eq!(Medida::from_i32(1), Some(Medida::Unidad));
    assert_eq!(Medida::from_i32(5), Some(Medida::Mililitro));
    assert_eq!(Medida::from_i32(0), None);
    assert_eq!(Medida::from_i32(6), None);
    assert_eq!(Medida::Kilogramo.a_i32(), 2);
    assert_eq!(Medida::from_i32(Medida::Litro.a_i32()), Some(Medida::Litro));
    assert_eq!(Medida::Kilogramo.info(), ("Kilogramo", "kg"));
    let nombres = Medida::todos_los_nombres();
    assert_eq!(nombres, vec!["Unidad", "Kilogramo", "Gramo", "Litro", "Mililitro"]);
}

#[test]
fn empaque_mapeo_cerrado() {
    assert_eq!(TipoEmpaque::from_i32(1), Some(TipoEmpaque::Individual));
    assert_eq!(TipoEmpaque::from_i32(8), Some(TipoEmpaque::SixPack));
    assert_eq!(TipoEmpaque::from_i32(9), None);
    assert_eq!(TipoEmpaque::Docena.a_i32(), 7);
    assert_eq!(TipoEmpaque::Lata.info(), ("Lata", "lt"));
    let todos = TipoEmpaque::todos_tipos();
    assert_eq!(todos.len(), 8);
    assert_eq!(todos[0], TipoEmpaque::Individual);
    assert_eq!(todos[7], TipoEmpaque::SixPack);
}

#[test]
fn reportes_de_stock_y_vencimiento() {
    let mut a = Almacen::nuevo();
    let p1 = a.crear_producto(&producto("Escaso", 100, 2)).unwrap();
    let _p2 = a.crear_producto(&producto("Sobrado", 100, 50)).unwrap();
    let mut retirado = producto("Retirado", 100, 1);
    retirado.activo = false;
    a.crear_producto(&retirado).unwrap();
    let bajos = a.obtener_productos_stock_bajo(5);
    assert_eq!(bajos.len(), 1);
    assert_eq!(bajos[0].id, p1);

    let mut fresco = producto("Fresco", 100, 1);
    fresco.fecha_vencimiento = Some(1_010);
    let pf = a.crear_producto(&fresco).unwrap();
    let mut lejano = producto("Lejano", 100, 1);
    lejano.fecha_vencimiento = Some(2_000);
    a.crear_producto(&lejano).unwrap();
    let por_vencer = a.obtener_productos_por_vencer(1_000, 30);
    assert_eq!(por_vencer.len(), 1);
    assert_eq!(por_vencer[0].id, pf);
}

#[test]
fn busqueda_de_productos_ordenada_por_nombre() {
    let mut a = Almacen::nuevo();
    a.crear_producto(&producto("Zanahoria", 100, 1)).unwrap();
    a.crear_producto(&producto("Manzana", 100, 1)).unwrap();
    a.crear_producto(&producto("Banana", 100, 1)).unwrap();
    let r = a.buscar_productos_por_nombre("an");
    assert_eq!(r.len(), 3);
    assert_eq!(r[0].nombre, "Banana");
    assert_eq!(r[1].nombre, "Manzana");
    assert_eq!(r[2].nombre, "Zanahoria");
}

#[test]
fn busqueda_de_marcas_ordenada_por_nombre() {
    let mut a = Almacen::nuevo();
    a.crear_marca(&marca("Zeta Corp")).unwrap();
    a.crear_marca(&marca("Alfa Corp")).unwrap();
    let r = a.buscar_marcas_por_nombre("corp");
    assert_eq!(r.len(), 2);
    assert_eq!(r[0].nombre, "Alfa Corp");
    assert_eq!(r[1].nombre, "Zeta Corp");
}

#[test]
fn productos_de_marca_ordenados_por_nombre() {
    let mut a = Almacen::nuevo();
    let m = a.crear_marca(&marca("Acme")).unwrap();
    let mut pz = producto("Zumo", 100, 1);
    pz.marca_id = Some(m);
    let mut pa = producto("Agua", 100, 1);
    pa.marca_id = Some(m);
    a.crear_producto(&pz).unwrap();
    a.crear_producto(&pa).unwrap();
    let r = a.buscar_productos_por_marca(m);
    assert_eq!(r.len(), 2);
    assert_eq!(r[0].nombre, "Agua");
    assert_eq!(r[1].nombre, "Zumo");
}

#[test]
fn reporte_de_stock_bajo_ordena_por_stock() {
    let mut a = Almacen::nuevo();
    let p5 = a.crear_producto(&producto("Cinco", 100, 5)).unwrap();
    let p2 = a.crear_producto(&producto("Dos", 100, 2)).unwrap();
    let p4 = a.crear_producto(&producto("Cuatro", 100, 4)).unwrap();
    let bajos = a.obtener_productos_stock_bajo(5);
    assert_eq!(bajos.iter().map(|p| p.id).collect::<Vec<_>>(), vec![p2, p4, p5]);
}

#[test]
fn reporte_de_vencimiento_ordena_por_fecha() {
    let mut a = Almacen::nuevo();
    let mut tarde = producto("Tarde", 100, 1);
    tarde.fecha_vencimiento = Some(1_020);
    let pt = a.crear_producto(&tarde).unwrap();
    let mut pronto = producto("Pronto", 100, 1);
    pronto.fecha_vencimiento = Some(1_005);
    let pp = a.crear_producto(&pronto).unwrap();
    let r = a.obtener_productos_por_vencer(1_000, 30);
    assert_eq!(r.iter().map(|p| p.id).collect::<Vec<_>>(), vec![pp, pt]);
}
