//! User accounts: creation, deletion and credential validation.  The role
//! is a closed variant type with an explicit, exhaustive mapping to and from
//! the persisted text; unknown stored values are rejected rather than
//! silently defaulted.

use vstd::prelude::*;

use crate::almacen::{clonar_usuario, total_detalles, Almacen};
use crate::models::{ErrorAlmacen, Rol, Usuario};
use crate::productos::iguales;
use crate::texto::textos_iguales;

verus! {

// ---------------------------------------------------------------------------
// The role's persisted representation.
// ---------------------------------------------------------------------------

/// The text under which a role is persisted.
pub open spec fn rol_texto(r: Rol) -> Seq<char> {
    match r {
        Rol::Admin => "Admin"@,
        Rol::Operador => "Operador"@,
        Rol::Vendedor => "Vendedor"@,
    }
}

/// The role a stored text denotes, if any.
pub open spec fn rol_desde(s: Seq<char>) -> Option<Rol> {
    if s == "Admin"@ {
        Some(Rol::Admin)
    } else if s == "Operador"@ {
        Some(Rol::Operador)
    } else if s == "Vendedor"@ {
        Some(Rol::Vendedor)
    } else {
        None
    }
}

impl Rol {
    /// The exact text under which this role is persisted.
    pub fn a_texto(&self) -> (r: &'static str)
        ensures
            r@ == rol_texto(*self),
    {
        match self {
            Rol::Admin => "Admin",
            Rol::Operador => "Operador",
            Rol::Vendedor => "Vendedor",
        }
    }

    /// Parse a persisted role text; an unknown value is rejected.
    pub fn desde_texto(s: &str) -> (r: Option<Rol>)
        ensures
            r == rol_desde(s@),
    {
        if textos_iguales(s, "Admin") {
            Some(Rol::Admin)
        } else if textos_iguales(s, "Operador") {
            Some(Rol::Operador)
        } else if textos_iguales(s, "Vendedor") {
            Some(Rol::Vendedor)
        } else {
            None
        }
    }
}

// ---------------------------------------------------------------------------
// Spec-level lookups.
// ---------------------------------------------------------------------------

impl Almacen {
    pub open spec fn indice_usuario_spec(self, nombre: Seq<char>) -> int {
        choose|i: int|
            0 <= i < self.usuarios@.len() && (#[trigger] self.usuarios@[i]).username@ == nombre
    }

    pub open spec fn usuario_por_nombre(self, nombre: Seq<char>) -> Usuario {
        self.usuarios@[self.indice_usuario_spec(nombre)]
    }

    /// With unique usernames, any index holding `nombre` is the spec-level
    /// index.
    pub proof fn lema_indice_usuario(self, i: int)
        requires
            self.unicidad_textos(),
            0 <= i < self.usuarios@.len(),
        ensures
            self.username_ocupado(self.usuarios@[i].username@),
            self.indice_usuario_spec(self.usuarios@[i].username@) == i,
    {
        let nombre = self.usuarios@[i].username@;
        assert(self.username_ocupado(nombre));
        let j = self.indice_usuario_spec(nombre);
        if i < j {
            assert(self.usuarios@[i].username@ != self.usuarios@[j].username@);
        } else if j < i {
            assert(self.usuarios@[j].username@ != self.usuarios@[i].username@);
        }
    }
}

/// Everything but the user table (and its id counter) is untouched.
pub open spec fn tablas_sin_usuarios_iguales(a: Almacen, b: Almacen) -> bool {
    &&& b.productos@ == a.productos@
    &&& b.marcas@ == a.marcas@
    &&& b.ventas@ == a.ventas@
    &&& b.detalles@ == a.detalles@
    &&& b.siguiente_producto_id == a.siguiente_producto_id
    &&& b.siguiente_marca_id == a.siguiente_marca_id
    &&& b.siguiente_venta_id == a.siguiente_venta_id
    &&& b.siguiente_detalle_id == a.siguiente_detalle_id
}

/// Changing only users keeps the invariant, as nothing references them.
proof fn lema_inv_usuarios(a: Almacen, b: Almacen)
    requires
        a.inv(),
        tablas_sin_usuarios_iguales(a, b),
        b.siguiente_usuario_id >= a.siguiente_usuario_id,
        forall|i: int, j: int|
            0 <= i < j < b.usuarios@.len() ==> (#[trigger] b.usuarios@[i]).id != (
            #[trigger] b.usuarios@[j]).id,
        forall|i: int, j: int|
            0 <= i < j < b.usuarios@.len() ==> (#[trigger] b.usuarios@[i]).username@ != (
            #[trigger] b.usuarios@[j]).username@,
        forall|i: int|
            0 <= i < b.usuarios@.len() ==> (#[trigger] b.usuarios@[i]).id < b.siguiente_usuario_id,
        b.siguiente_usuario_id >= 1,
    ensures
        b.inv(),
{
    assert forall|x: i64| a.tiene_producto(x) implies b.tiene_producto(x) by {
        let k = choose|k: int|
            0 <= k < a.productos@.len() && (#[trigger] a.productos@[k]).id == x;
        assert(b.productos@[k].id == x);
    }
    assert forall|x: i64| a.tiene_marca(x) implies b.tiene_marca(x) by {
        let k = choose|k: int| 0 <= k < a.marcas@.len() && (#[trigger] a.marcas@[k]).id == x;
        assert(b.marcas@[k].id == x);
    }
    assert forall|x: i64| a.tiene_venta(x) implies b.tiene_venta(x) by {
        let k = choose|k: int| 0 <= k < a.ventas@.len() && (#[trigger] a.ventas@[k]).id == x;
        assert(b.ventas@[k].id == x);
    }
    assert forall|x: i64| a.venta_tiene_detalle(x) implies b.venta_tiene_detalle(x) by {
        let k = choose|k: int|
            0 <= k < a.detalles@.len() && (#[trigger] a.detalles@[k]).venta_id == x;
        assert(b.detalles@[k].venta_id == x);
    }
    assert(b.ids_unicos());
    assert(b.ids_acotados());
    assert(b.unicidad_textos());
    assert(b.referencias_validas());
    assert forall|i: int| 0 <= i < b.ventas@.len() implies ((#[trigger] b.ventas@[i]).total as int)
        == total_detalles(b.detalles@, b.ventas@[i].id) by {
        assert(b.ventas@[i] == a.ventas@[i]);
        assert(total_detalles(b.detalles@, b.ventas@[i].id) == total_detalles(
            a.detalles@,
            a.ventas@[i].id,
        ));
    }
    assert(b.ventas_integras());
}

// ---------------------------------------------------------------------------
// Operations.
// ---------------------------------------------------------------------------

impl Almacen {
    /// Create a user with a free username; the account starts active and
    /// without a recorded login.  On success the new identity is returned.
    #[verifier::loop_isolation(false)]
    pub fn crear_usuario(&mut self, username: &str, password_hash: &str, rol: Rol) -> (r: Result<
        i64,
        ErrorAlmacen,
    >)
        requires
            old(self).inv(),
            old(self).siguiente_usuario_id < i64::MAX,
        ensures
            final(self).inv(),
            (r == Result::<i64, ErrorAlmacen>::Err(ErrorAlmacen::UsuarioDuplicado)) <==> old(self).username_ocupado(username@),
            r is Ok <==> !old(self).username_ocupado(username@),
            r is Err ==> iguales(*old(self), *final(self)),
            r matches Ok(id) ==> id == old(self).siguiente_usuario_id && final(self).usuarios@.len() == old(self).usuarios@.len() + 1 && final(self).usuarios@.drop_last()
                =~= old(self).usuarios@ && (final(self).usuarios@.last().id == id && final(self).usuarios@.last().username@ == username@ && final(self).usuarios@.last().password_hash@ == password_hash@ && final(self).usuarios@.last().rol == rol && final(self).usuarios@.last().activo && final(self).usuarios@.last().ultimo_login is None) && final(self).siguiente_usuario_id == old(self).siguiente_usuario_id + 1 && tablas_sin_usuarios_iguales(*old(self), *final(self)),
    {
        let total = self.usuarios.len();
        let mut k: usize = 0;
        while k < total
            invariant
                k <= total,
                total == self.usuarios@.len(),
                forall|i: int|
                    0 <= i < k ==> (#[trigger] self.usuarios@[i]).username@ != username@,
            decreases total - k,
        {
            if textos_iguales(self.usuarios[k].username.as_str(), username) {
                return Err(ErrorAlmacen::UsuarioDuplicado);
            }
            k += 1;
        }
        let id = self.siguiente_usuario_id;
        let nuevo = Usuario {
            id: id,
            username: username.to_owned(),
            password_hash: password_hash.to_owned(),
            rol: rol,
            activo: true,
            ultimo_login: None,
        };
        self.usuarios.push(nuevo);
        self.siguiente_usuario_id = id + 1;
        proof {
            lema_inv_usuarios(*old(self), *self);
        }
        Ok(id)
    }

    /// Delete a user by id; reports whether one existed.
    #[verifier::loop_isolation(false)]
    pub fn eliminar_usuario(&mut self, id: i64) -> (r: bool)
        requires
            old(self).inv(),
        ensures
            final(self).inv(),
            r == exists|i: int|
                0 <= i < old(self).usuarios@.len() && (#[trigger] old(self).usuarios@[i]).id == id,
            !r ==> iguales(*old(self), *final(self)),
            r ==> exists|i: int|
                0 <= i < old(self).usuarios@.len() && (#[trigger] old(self).usuarios@[i]).id == id
                    && final(self).usuarios@ =~= old(self).usuarios@.remove(i),
            r ==> tablas_sin_usuarios_iguales(*old(self), *final(self)) && final(self).siguiente_usuario_id == old(self).siguiente_usuario_id,
    {
        let total = self.usuarios.len();
        let mut k: usize = 0;
        let mut indice: Option<usize> = None;
        while k < total
            invariant
                k <= total,
                total == self.usuarios@.len(),
                indice is None ==> forall|i: int|
                    0 <= i < k ==> (#[trigger] self.usuarios@[i]).id != id,
                indice matches Some(x) ==> x < total && self.usuarios@[x as int].id == id,
            decreases total - k,
        {
            if self.usuarios[k].id == id {
                indice = Some(k);
                k = total;
            } else {
                k += 1;
            }
        }
        let k = match indice {
            Some(x) => x,
            None => {
                return false;
            },
        };
        self.usuarios.remove(k);
        proof {
            old(self).usuarios@.remove_ensures(k as int);
            assert forall|x: int, y: int| 0 <= x < y < final(self).usuarios@.len() implies (
            #[trigger] final(self).usuarios@[x]).id != (#[trigger] final(self).usuarios@[y]).id by {
                assert(final(self).usuarios@[x] == old(self).usuarios@[
                    if x < k {
                        x
                    } else {
                        x + 1
                    }
                ]);
                assert(final(self).usuarios@[y] == old(self).usuarios@[
                    if y < k {
                        y
                    } else {
                        y + 1
                    }
                ]);
            }
            assert forall|x: int, y: int| 0 <= x < y < final(self).usuarios@.len() implies (
            #[trigger] final(self).usuarios@[x]).username@ != (#[trigger] final(self).usuarios@[y]).username@ by {
                assert(final(self).usuarios@[x] == old(self).usuarios@[
                    if x < k {
                        x
                    } else {
                        x + 1
                    }
                ]);
                assert(final(self).usuarios@[y] == old(self).usuarios@[
                    if y < k {
                        y
                    } else {
                        y + 1
                    }
                ]);
            }
            assert forall|x: int| 0 <= x < final(self).usuarios@.len() implies (
            #[trigger] final(self).usuarios@[x]).id < final(self).siguiente_usuario_id by {
                assert(final(self).usuarios@[x] == old(self).usuarios@[
                    if x < k {
                        x
                    } else {
                        x + 1
                    }
                ]);
            }
            lema_inv_usuarios(*old(self), *self);
        }
        true
    }

    /// Validate credentials: the account must exist under this username, be
    /// active, and carry exactly this credential.  On success the stored
    /// last-login timestamp is advanced to `ahora` and the account as it was
    /// read (before that update) is returned.
    #[verifier::loop_isolation(false)]
    pub fn validar_usuario(&mut self, user: &str, pass: &str, ahora: i64) -> (r: Option<Usuario>)
        requires
            old(self).inv(),
        ensures
            final(self).inv(),
            r is Some <==> (old(self).username_ocupado(user@) && old(self).usuario_por_nombre(
                user@,
            ).activo && old(self).usuario_por_nombre(user@).password_hash@ == pass@),
            r matches Some(u) ==> u == old(self).usuario_por_nombre(user@) && final(self).usuarios@
                =~= old(self).usuarios@.update(
                old(self).indice_usuario_spec(user@),
                (Usuario { ultimo_login: Some(ahora), ..u }),
            ) && tablas_sin_usuarios_iguales(*old(self), *final(self)) && final(self).siguiente_usuario_id == old(self).siguiente_usuario_id,
            r is None ==> iguales(*old(self), *final(self)),
    {
        let total = self.usuarios.len();
        let mut k: usize = 0;
        let mut indice: Option<usize> = None;
        while k < total
            invariant
                k <= total,
                total == self.usuarios@.len(),
                indice is None ==> forall|i: int|
                    0 <= i < k ==> (#[trigger] self.usuarios@[i]).username@ != user@,
                indice matches Some(x) ==> x < total && self.usuarios@[x as int].username@
                    == user@,
            decreases total - k,
        {
            if textos_iguales(self.usuarios[k].username.as_str(), user) {
                indice = Some(k);
                k = total;
            } else {
                k += 1;
            }
        }
        let k = match indice {
            Some(x) => x,
            None => {
                return None;
            },
        };
        proof {
            self.lema_indice_usuario(k as int);
        }
        if !self.usuarios[k].activo {
            return None;
        }
        if !textos_iguales(self.usuarios[k].password_hash.as_str(), pass) {
            return None;
        }
        let u = clonar_usuario(&self.usuarios[k]);
        let actualizado = Usuario { ultimo_login: Some(ahora), ..clonar_usuario(&u) };
        self.usuarios.set(k, actualizado);
        proof {
            assert forall|x: int, y: int| 0 <= x < y < final(self).usuarios@.len() implies (
            #[trigger] final(self).usuarios@[x]).id != (#[trigger] final(self).usuarios@[y]).id by {
                if x != k as int && y != k as int {
                    assert(final(self).usuarios@[x] == old(self).usuarios@[x]);
                    assert(final(self).usuarios@[y] == old(self).usuarios@[y]);
                }
            }
            assert forall|x: int, y: int| 0 <= x < y < final(self).usuarios@.len() implies (
            #[trigger] final(self).usuarios@[x]).username@ != (#[trigger] final(self).usuarios@[y]).username@ by {
                if x != k as int && y != k as int {
                    assert(final(self).usuarios@[x] == old(self).usuarios@[x]);
                    assert(final(self).usuarios@[y] == old(self).usuarios@[y]);
                }
            }
            lema_inv_usuarios(*old(self), *self);
        }
        Some(u)
    }
}

} // verus!
