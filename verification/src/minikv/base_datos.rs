//! The in-memory database of minikv: a map from keys to values, both
//! strings, kept as a list of entries in which no key occurs twice.
use vstd::prelude::*;

verus! {

/// The map that a list of entries stands for: the entries are inserted in
/// order, so a later entry for a key replaces an earlier one.
pub open spec fn mapa_de(entradas: Seq<(Seq<char>, Seq<char>)>) -> Map<Seq<char>, Seq<char>>
    decreases entradas.len(),
{
    if entradas.len() == 0 {
        Map::empty()
    } else {
        mapa_de(entradas.drop_last()).insert(entradas.last().0, entradas.last().1)
    }
}

/// No key occurs twice among the entries.
pub open spec fn claves_distintas(entradas: Seq<(Seq<char>, Seq<char>)>) -> bool {
    forall|i: int, j: int|
        0 <= i < entradas.len() && 0 <= j < entradas.len() && i != j ==> entradas[i].0
            != entradas[j].0
}

/// The keys of a list of entries are those of its map, and with distinct
/// keys each entry gives its key's value.
pub proof fn lema_mapa_de_contenido(entradas: Seq<(Seq<char>, Seq<char>)>)
    requires
        claves_distintas(entradas),
    ensures
        forall|k: Seq<char>|
            mapa_de(entradas).contains_key(k) <==> exists|i: int|
                0 <= i < entradas.len() && #[trigger] entradas[i].0 == k,
        forall|i: int|
            0 <= i < entradas.len() ==> #[trigger] mapa_de(entradas)[entradas[i].0]
                == entradas[i].1,
        mapa_de(entradas).dom().finite(),
        mapa_de(entradas).len() == entradas.len(),
    decreases entradas.len(),
{
    if entradas.len() > 0 {
        let previas = entradas.drop_last();
        assert(claves_distintas(previas));
        lema_mapa_de_contenido(previas);
        let ultima = entradas.last();
        assert(!mapa_de(previas).contains_key(ultima.0)) by {
            if mapa_de(previas).contains_key(ultima.0) {
                let i = choose|i: int| 0 <= i < previas.len() && #[trigger] previas[i].0 == ultima.0;
                assert(entradas[i].0 == entradas[entradas.len() - 1].0);
            }
        }
        assert forall|k: Seq<char>|
            mapa_de(entradas).contains_key(k) implies exists|i: int|
                0 <= i < entradas.len() && #[trigger] entradas[i].0 == k by {
            if k == ultima.0 {
                assert(entradas[entradas.len() - 1].0 == k);
            } else {
                let i = choose|i: int| 0 <= i < previas.len() && #[trigger] previas[i].0 == k;
                assert(entradas[i].0 == k);
            }
        }
        assert forall|k: Seq<char>|
            (exists|i: int| 0 <= i < entradas.len() && #[trigger] entradas[i].0 == k) implies
            mapa_de(entradas).contains_key(k) by {
            let i = choose|i: int| 0 <= i < entradas.len() && #[trigger] entradas[i].0 == k;
            if i < entradas.len() - 1 {
                assert(previas[i].0 == k);
            }
        }
        assert forall|i: int| 0 <= i < entradas.len() implies #[trigger] mapa_de(entradas)[entradas[i].0]
            == entradas[i].1 by {
            if i < entradas.len() - 1 {
                assert(previas[i] == entradas[i]);
                assert(entradas[i].0 != ultima.0);
            }
        }
    }
}

/// Replacing the value of the entry at `i` replaces that key's value in the map.
pub proof fn lema_mapa_de_actualizar(
    entradas: Seq<(Seq<char>, Seq<char>)>,
    i: int,
    valor: Seq<char>,
)
    requires
        claves_distintas(entradas),
        0 <= i < entradas.len(),
    ensures
        mapa_de(entradas.update(i, (entradas[i].0, valor))) == mapa_de(entradas).insert(
            entradas[i].0,
            valor,
        ),
    decreases entradas.len(),
{
    let nuevas = entradas.update(i, (entradas[i].0, valor));
    let previas = entradas.drop_last();
    if i == entradas.len() - 1 {
        assert(nuevas.drop_last() =~= previas);
        assert(mapa_de(nuevas) =~= mapa_de(entradas).insert(entradas[i].0, valor));
    } else {
        assert(claves_distintas(previas));
        lema_mapa_de_actualizar(previas, i, valor);
        assert(nuevas.drop_last() =~= previas.update(i, (entradas[i].0, valor)));
        assert(entradas[i].0 != entradas.last().0);
        assert(mapa_de(nuevas) =~= mapa_de(entradas).insert(entradas[i].0, valor));
    }
}

/// Removing the entry at `i` removes its key from the map.
pub proof fn lema_mapa_de_quitar(entradas: Seq<(Seq<char>, Seq<char>)>, i: int)
    requires
        claves_distintas(entradas),
        0 <= i < entradas.len(),
    ensures
        mapa_de(entradas.remove(i)) == mapa_de(entradas).remove(entradas[i].0),
    decreases entradas.len(),
{
    let previas = entradas.drop_last();
    assert(claves_distintas(previas));
    if i == entradas.len() - 1 {
        assert(entradas.remove(i) =~= previas);
        lema_mapa_de_contenido(previas);
        assert(!mapa_de(previas).contains_key(entradas[i].0)) by {
            if mapa_de(previas).contains_key(entradas[i].0) {
                let j = choose|j: int| 0 <= j < previas.len() && #[trigger] previas[j].0 == entradas[i].0;
                assert(entradas[j].0 == entradas[i].0);
            }
        }
        assert(mapa_de(entradas.remove(i)) =~= mapa_de(entradas).remove(entradas[i].0));
    } else {
        lema_mapa_de_quitar(previas, i);
        assert(entradas.remove(i).drop_last() =~= previas.remove(i));
        assert(entradas.remove(i).last() == entradas.last());
        assert(entradas[i].0 != entradas.last().0);
        assert(mapa_de(entradas.remove(i)) =~= mapa_de(entradas).remove(entradas[i].0));
    }
}

/// The database: each key is bound to one value.
///
/// It is a list of entries rather than a `HashMap<String, String>`: vstd
/// specifies `HashMap` only for key types that it knows to obey its key
/// model (`obeys_key_model`), which it states for integers and `bool` but
/// not for `String`, so lookups in such a map could not be proved.
pub struct BaseDatos {
    entradas: Vec<(String, String)>,
}

impl BaseDatos {
    /// The entries, as character sequences, in the order in which they are kept.
    pub closed spec fn entradas_vista(&self) -> Seq<(Seq<char>, Seq<char>)> {
        Seq::new(self.entradas@.len(), |i: int| (self.entradas@[i].0@, self.entradas@[i].1@))
    }

    /// No key occurs twice; every database keeps this.
    #[verifier::type_invariant]
    pub closed spec fn bien_formada(&self) -> bool {
        claves_distintas(self.entradas_vista())
    }

    /// The key of entry `i` is a key of the database, with the value of entry `i`.
    pub proof fn lema_entradas(&self)
        requires
            self.bien_formada(),
        ensures
            forall|i: int|
                0 <= i < self.entradas_vista().len() ==> self@.contains_key(
                    #[trigger] self.entradas_vista()[i].0,
                ) && self@[self.entradas_vista()[i].0] == self.entradas_vista()[i].1,
            self@ == mapa_de(self.entradas_vista()),
            self@.dom().finite(),
            self@.len() == self.entradas_vista().len(),
    {
        lema_mapa_de_contenido(self.entradas_vista());
        assert forall|i: int| 0 <= i < self.entradas_vista().len() implies self@.contains_key(
            #[trigger] self.entradas_vista()[i].0,
        ) by {
            assert(self.entradas_vista()[i].0 == self.entradas_vista()[i].0);
        }
    }

    /// An empty database.
    pub fn new() -> (b: Self)
        ensures
            b@ == Map::<Seq<char>, Seq<char>>::empty(),
            b.entradas_vista() == Seq::<(Seq<char>, Seq<char>)>::empty(),
    {
        let b = BaseDatos { entradas: Vec::new() };
        assert(b.entradas_vista() =~= Seq::<(Seq<char>, Seq<char>)>::empty());
        b
    }

    /// The position of the entry for `clave`, if there is one.
    fn buscar(&self, clave: &String) -> (r: Option<usize>)
        ensures
            match r {
                Some(i) => i < self.entradas_vista().len() && self.entradas_vista()[i as int].0
                    == clave@,
                None => !self@.contains_key(clave@),
            },
    {
        proof {
            use_type_invariant(self);
            self.lema_entradas();
        }
        let mut i: usize = 0;
        while i < self.entradas.len()
            invariant
                i <= self.entradas.len(),
                forall|j: int| 0 <= j < i ==> #[trigger] self.entradas_vista()[j].0 != clave@,
            decreases self.entradas.len() - i,
        {
            assert(self.entradas_vista()[i as int].0 == self.entradas@[i as int].0@);
            if self.entradas[i].0 == *clave {
                return Some(i);
            }
            i = i + 1;
        }
        proof {
            lema_mapa_de_contenido(self.entradas_vista());
            use_type_invariant(self);
        }
        None
    }

    /// The value bound to `clave`, if any.
    pub fn obtener(&self, clave: &String) -> (r: Option<String>)
        ensures
            match r {
                Some(v) => self@.contains_key(clave@) && v@ == self@[clave@],
                None => !self@.contains_key(clave@),
            },
    {
        proof {
            use_type_invariant(self);
            self.lema_entradas();
        }
        match self.buscar(clave) {
            Some(i) => Some(self.entradas[i].1.clone()),
            None => None,
        }
    }

    /// The number of keys.
    pub fn cantidad(&self) -> (n: usize)
        ensures
            n == self@.len(),
    {
        proof {
            use_type_invariant(self);
            self.lema_entradas();
        }
        self.entradas.len()
    }

    /// Binds `clave` to `valor`; a value that `clave` had is replaced.
    pub fn insertar(&mut self, clave: String, valor: String)
        ensures
            final(self)@ == old(self)@.insert(clave@, valor@),
    {
        proof {
            use_type_invariant(&*self);
            self.lema_entradas();
        }
        match self.buscar(&clave) {
            Some(i) => {
                let ghost previas = self.entradas_vista();
                let ghost k = previas[i as int].0;
                let mut entradas = Vec::new();
                std::mem::swap(&mut entradas, &mut self.entradas);
                entradas.set(i, (clave, valor));
                proof {
                    let b = BaseDatos { entradas };
                    assert(b.entradas_vista() =~= previas.update(i as int, (k, valor@)));
                    assert(claves_distintas(b.entradas_vista()));
                }
                self.entradas = entradas;
                proof {
                    assert(self.entradas_vista() =~= previas.update(i as int, (k, valor@)));
                    lema_mapa_de_actualizar(previas, i as int, valor@);
                }
            },
            None => {
                let ghost previas = self.entradas_vista();
                proof {
                    lema_mapa_de_contenido(previas);
                }
                let mut entradas = Vec::new();
                std::mem::swap(&mut entradas, &mut self.entradas);
                entradas.push((clave, valor));
                proof {
                    let b = BaseDatos { entradas };
                    assert(b.entradas_vista() =~= previas.push((clave@, valor@)));
                    assert forall|j: int| 0 <= j < previas.len() implies #[trigger] previas[j].0 != clave@ by {
                        assert(mapa_de(previas).contains_key(previas[j].0));
                    }
                    assert(claves_distintas(b.entradas_vista()));
                }
                self.entradas = entradas;
                proof {
                    assert(self.entradas_vista() =~= previas.push((clave@, valor@)));
                    assert(self.entradas_vista().drop_last() =~= previas);
                    assert forall|j: int| 0 <= j < previas.len() implies #[trigger] previas[j].0 != clave@ by {
                        assert(mapa_de(previas).contains_key(previas[j].0));
                    }
                }
            },
        }
    }

    /// Removes `clave` and its value, if present.
    pub fn eliminar(&mut self, clave: &String)
        ensures
            final(self)@ == old(self)@.remove(clave@),
    {
        proof {
            use_type_invariant(&*self);
            self.lema_entradas();
        }
        match self.buscar(clave) {
            Some(i) => {
                let ghost previas = self.entradas_vista();
                let mut entradas = Vec::new();
                std::mem::swap(&mut entradas, &mut self.entradas);
                let _ = entradas.remove(i);
                proof {
                    let b = BaseDatos { entradas };
                    assert(b.entradas_vista() =~= previas.remove(i as int));
                    assert(claves_distintas(b.entradas_vista()));
                }
                self.entradas = entradas;
                proof {
                    assert(self.entradas_vista() =~= previas.remove(i as int));
                    lema_mapa_de_quitar(previas, i as int);
                }
            },
            None => {
                assert(old(self)@.remove(clave@) =~= old(self)@);
            },
        }
    }

    /// The entry at position `i`, in the order in which entries are kept.
    pub fn entrada(&self, i: usize) -> (r: (&String, &String))
        requires
            i < self.entradas_vista().len(),
        ensures
            (r.0@, r.1@) == self.entradas_vista()[i as int],
    {
        (&self.entradas[i].0, &self.entradas[i].1)
    }

    /// The number of entries, which is the number of keys.
    pub fn largo(&self) -> (n: usize)
        ensures
            n == self.entradas_vista().len(),
    {
        self.entradas.len()
    }
}

impl View for BaseDatos {
    type V = Map<Seq<char>, Seq<char>>;

    closed spec fn view(&self) -> Map<Seq<char>, Seq<char>> {
        mapa_de(self.entradas_vista())
    }
}

} // verus!
