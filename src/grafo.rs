use vstd::prelude::*;
use vstd::string::*;
use crate::texto::{decimal, decimal_spec};

verus! {

/// An undirected weighted connection between two vertex names.
#[derive(Debug, PartialEq, Eq)]
pub struct Arista {
    pub lazo: (String, String),
    pub distancia: u64,
}

/// A named vertex with its tentative predecessor (by name) and distance.
#[derive(Debug, PartialEq, Eq)]
pub struct Vertice {
    pub id: String,
    pub distancia: (Option<String>, Option<u64>),
}

impl Clone for Arista {
    fn clone(&self) -> (r: Arista)
        ensures
            r == *self,
    {
        Arista { lazo: (self.lazo.0.clone(), self.lazo.1.clone()), distancia: self.distancia }
    }
}

/// Copies an optional name.
fn copia_nombre(n: &Option<String>) -> (r: Option<String>)
    ensures
        r == *n,
{
    match n {
        Some(s) => Some(s.clone()),
        None => None,
    }
}

impl Clone for Vertice {
    fn clone(&self) -> (r: Vertice)
        ensures
            r == *self,
    {
        Vertice {
            id: self.id.clone(),
            distancia: (copia_nombre(&self.distancia.0), self.distancia.1),
        }
    }
}

/// Strict order on tentative distances: a set distance comes before an unset
/// one, and smaller set distances come first.
pub open spec fn dist_menor(a: Option<u64>, b: Option<u64>) -> bool {
    match (a, b) {
        (Some(x), Some(y)) => x < y,
        (Some(_), None) => true,
        _ => false,
    }
}

/// Executable form of `dist_menor`.
pub fn menor_dist(a: Option<u64>, b: Option<u64>) -> (r: bool)
    ensures
        r == dist_menor(a, b),
{
    match (a, b) {
        (Some(x), Some(y)) => x < y,
        (Some(_), None) => true,
        _ => false,
    }
}

impl Vertice {
    pub fn new(n: &str) -> (r: Vertice)
        ensures
            r.id@ == n@,
            r.distancia == (None::<String>, None::<u64>),
    {
        Vertice { id: n.to_owned(), distancia: (None, None) }
    }

    /// Whether `self` is selected before `otro` when picking the next vertex.
    pub fn es_menor(&self, otro: &Vertice) -> (r: bool)
        ensures
            r == dist_menor(self.distancia.1, otro.distancia.1),
    {
        menor_dist(self.distancia.1, otro.distancia.1)
    }
}

/// The (weight, neighbour) pairs of the edges incident to `id`, in edge
/// order: the other endpoint of each edge that has `id` at either end.
pub open spec fn vecinos_de(aristas: Seq<Arista>, id: Seq<char>) -> Seq<(u64, Seq<char>)>
    decreases aristas.len(),
{
    if aristas.len() == 0 {
        seq![]
    } else {
        let previos = vecinos_de(aristas.drop_last(), id);
        let a = aristas.last();
        if a.lazo.0@ == id {
            previos.push((a.distancia, a.lazo.1@))
        } else if a.lazo.1@ == id {
            previos.push((a.distancia, a.lazo.0@))
        } else {
            previos
        }
    }
}

/// The abstract value of a neighbour list.
pub open spec fn vista_vecinos(v: Seq<(u64, String)>) -> Seq<(u64, Seq<char>)> {
    v.map_values(|p: (u64, String)| (p.0, p.1@))
}

/// Whether some edge of `aristas` joins `a` and `b` (in either order) with weight `w`.
pub open spec fn arista_entre(aristas: Seq<Arista>, a: Seq<char>, b: Seq<char>, w: u64) -> bool {
    exists|k: int|
        0 <= k < aristas.len() && (#[trigger] aristas[k]).distancia == w && ((aristas[k].lazo.0@
            == a && aristas[k].lazo.1@ == b) || (aristas[k].lazo.0@ == b && aristas[k].lazo.1@
            == a))
}

/// Every entry of the neighbour list of `id` stands for an edge at `id`.
pub proof fn lemma_vecinos_son_aristas(aristas: Seq<Arista>, id: Seq<char>, j: int)
    requires
        0 <= j < vecinos_de(aristas, id).len(),
    ensures
        arista_entre(aristas, id, vecinos_de(aristas, id)[j].1, vecinos_de(aristas, id)[j].0),
    decreases aristas.len(),
{
    let previos = vecinos_de(aristas.drop_last(), id);
    let k = aristas.len() - 1;
    if j < previos.len() {
        lemma_vecinos_son_aristas(aristas.drop_last(), id, j);
        let kk = choose|kk: int|
            0 <= kk < aristas.drop_last().len() && (#[trigger] aristas.drop_last()[kk]).distancia
                == previos[j].0 && ((aristas.drop_last()[kk].lazo.0@ == id
                && aristas.drop_last()[kk].lazo.1@ == previos[j].1) || (
            aristas.drop_last()[kk].lazo.0@ == previos[j].1 && aristas.drop_last()[kk].lazo.1@
                == id));
        assert(aristas[kk] == aristas.drop_last()[kk]);
    } else {
        assert(aristas[k] == aristas.last());
    }
}

/// The list of `id`'s neighbours holds the far end of every edge at `id`.
pub proof fn lemma_aristas_en_vecinos(aristas: Seq<Arista>, id: Seq<char>, k: int)
    requires
        0 <= k < aristas.len(),
        aristas[k].lazo.0@ == id || aristas[k].lazo.1@ == id,
    ensures
        aristas[k].lazo.0@ == id ==> vecinos_de(aristas, id).contains(
            (aristas[k].distancia, aristas[k].lazo.1@),
        ),
        aristas[k].lazo.0@ != id ==> vecinos_de(aristas, id).contains(
            (aristas[k].distancia, aristas[k].lazo.0@),
        ),
    decreases aristas.len(),
{
    let previos = vecinos_de(aristas.drop_last(), id);
    if k < aristas.len() - 1 {
        assert(aristas.drop_last()[k] == aristas[k]);
        lemma_aristas_en_vecinos(aristas.drop_last(), id, k);
        let v = vecinos_de(aristas, id);
        if aristas[k].lazo.0@ == id {
            let j = choose|j: int|
                0 <= j < previos.len() && previos[j] == (aristas[k].distancia, aristas[k].lazo.1@);
            assert(v[j] == previos[j]);
        } else {
            let j = choose|j: int|
                0 <= j < previos.len() && previos[j] == (aristas[k].distancia, aristas[k].lazo.0@);
            assert(v[j] == previos[j]);
        }
    } else {
        let v = vecinos_de(aristas, id);
        assert(v[v.len() - 1] == v.last());
    }
}

/// Neighbour lookup is undirected: each edge is found from both of its endpoints.
pub proof fn ley_vecinos_no_dirigidos(g: Grafo, k: int)
    requires
        0 <= k < g.aristas@.len(),
    ensures
        vecinos_de(g.aristas@, g.aristas@[k].lazo.0@).contains(
            (g.aristas@[k].distancia, g.aristas@[k].lazo.1@),
        ),
        vecinos_de(g.aristas@, g.aristas@[k].lazo.1@).contains(
            (g.aristas@[k].distancia, g.aristas@[k].lazo.0@),
        ),
{
    let a = g.aristas@[k];
    lemma_aristas_en_vecinos(g.aristas@, a.lazo.0@, k);
    lemma_aristas_en_vecinos(g.aristas@, a.lazo.1@, k);
}

/// The vertex set (derived from the edge endpoints) and the edge list.
#[derive(Clone, Debug, PartialEq, Eq)]
pub struct Grafo {
    pub vertices: Vec<Vertice>,
    pub aristas: Vec<Arista>,
}

/// Whether `id` is an endpoint of one of the given edge triples.
pub open spec fn es_extremo(dato: Seq<(u64, &str, &str)>, id: Seq<char>) -> bool {
    exists|k: int| 0 <= k < dato.len() && (#[trigger] dato[k].1@ == id || dato[k].2@ == id)
}

/// The edge lines of the display text: a new line and a tab, then the two
/// endpoints and the weight of each edge.
pub open spec fn texto_aristas(a: Seq<Arista>) -> Seq<char>
    decreases a.len(),
{
    if a.len() == 0 {
        seq![]
    } else {
        let e = a.last();
        texto_aristas(a.drop_last()) + seq!['\n', '\t'] + e.lazo.0@ + seq![',', ' '] + e.lazo.1@
            + seq![' ', ':', ' '] + decimal_spec(e.distancia as nat)
    }
}

/// The display text of a graph: a header, then one line per edge.
pub open spec fn texto_grafo(a: Seq<Arista>) -> Seq<char> {
    seq!['A', 'r', 'i', 's', 't', 'a', 's', ':', ' '] + texto_aristas(a)
}

impl Grafo {
    /// The edges as text, one line `endpoint, endpoint : weight` each.
    pub fn to_string(&self) -> (r: String)
        ensures
            r@ == texto_grafo(self.aristas@),
    {
        proof {
            reveal_strlit("Aristas: ");
            reveal_strlit("\n\t");
            reveal_strlit(", ");
            reveal_strlit(" : ");
        }
        let mut r = String::from_str("Aristas: ");
        let mut k: usize = 0;
        while k < self.aristas.len()
            invariant
                k <= self.aristas@.len(),
                r@ == seq!['A', 'r', 'i', 's', 't', 'a', 's', ':', ' '] + texto_aristas(
                    self.aristas@.subrange(0, k as int),
                ),
            decreases self.aristas@.len() - k,
        {
            proof {
                let sig = self.aristas@.subrange(0, k + 1);
                assert(sig.drop_last() == self.aristas@.subrange(0, k as int));
            }
            let e = &self.aristas[k];
            r.append("\n\t");
            r.append(e.lazo.0.as_str());
            r.append(", ");
            r.append(e.lazo.1.as_str());
            r.append(" : ");
            let w = decimal(e.distancia);
            r.append(w.as_str());
            proof {
                let sig = self.aristas@.subrange(0, k + 1);
                assert(sig.last() == self.aristas@[k as int]);
                reveal_strlit("\n\t");
                reveal_strlit(", ");
                reveal_strlit(" : ");
                assert("\n\t"@ =~= seq!['\n', '\t']);
                assert(", "@ =~= seq![',', ' ']);
                assert(" : "@ =~= seq![' ', ':', ' ']);
                assert(r@ =~= seq!['A', 'r', 'i', 's', 't', 'a', 's', ':', ' '] + texto_aristas(sig));
            }
            k += 1;
        }
        assert(self.aristas@.subrange(0, k as int) == self.aristas@);
        r
    }

    /// Builds the graph of the given (weight, endpoint, endpoint) triples: one
    /// edge per triple, in order, and one unreached vertex per distinct endpoint.
    pub fn new(dato: Vec<(u64, &str, &str)>) -> (r: Grafo)
        ensures
            r.wf(),
            r.aristas@.len() == dato@.len(),
            forall|k: int|
                0 <= k < dato@.len() ==> (#[trigger] r.aristas@[k]).distancia == dato@[k].0
                    && r.aristas@[k].lazo.0@ == dato@[k].1@ && r.aristas@[k].lazo.1@
                    == dato@[k].2@,
            forall|id: Seq<char>| r.tiene(id) <==> es_extremo(dato@, id),
            forall|i: int|
                0 <= i < r.vertices@.len() ==> (#[trigger] r.vertices@[i]).distancia == (
                None::<String>,
                None::<u64>,
            ),
    {
        let mut g = Grafo { vertices: Vec::new(), aristas: Vec::new() };
        let mut k: usize = 0;
        while k < dato.len()
            invariant
                k <= dato@.len(),
                g.wf(),
                g.aristas@.len() == k,
                forall|j: int|
                    0 <= j < k ==> (#[trigger] g.aristas@[j]).distancia == dato@[j].0
                        && g.aristas@[j].lazo.0@ == dato@[j].1@ && g.aristas@[j].lazo.1@
                        == dato@[j].2@,
                forall|id: Seq<char>|
                    g.tiene(id) <==> es_extremo(dato@.subrange(0, k as int), id),
                forall|i: int|
                    0 <= i < g.vertices@.len() ==> (#[trigger] g.vertices@[i]).distancia == (
                    None::<String>,
                    None::<u64>,
                ),
            decreases dato@.len() - k,
        {
            let (w, a, b) = dato[k];
            let ghost g0 = g;
            if g.indice(a).is_none() {
                g.vertices.push(Vertice::new(a));
            }
            let ghost g1 = g;
            assert(g1.tiene(a@)) by {
                if !g0.tiene(a@) {
                    assert(g1.vertices@[g1.vertices@.len() - 1].id@ == a@);
                }
            }
            assert forall|id: Seq<char>| g1.tiene(id) <==> (g0.tiene(id) || id == a@) by {
                if g1.tiene(id) && !g0.tiene(id) {
                    let i = choose|i: int| 0 <= i < g1.vertices@.len() && #[trigger] g1.vertices@[i].id@ == id;
                    if i < g0.vertices@.len() {
                        assert(g0.vertices@[i] == g1.vertices@[i]);
                    }
                }
                if g0.tiene(id) {
                    let i = choose|i: int| 0 <= i < g0.vertices@.len() && #[trigger] g0.vertices@[i].id@ == id;
                    assert(g0.vertices@[i] == g1.vertices@[i]);
                }
            }
            if g.indice(b).is_none() {
                g.vertices.push(Vertice::new(b));
            }
            let ghost g2 = g;
            assert forall|id: Seq<char>| g2.tiene(id) <==> (g1.tiene(id) || id == b@) by {
                if g2.tiene(id) && !g1.tiene(id) {
                    let i = choose|i: int| 0 <= i < g2.vertices@.len() && #[trigger] g2.vertices@[i].id@ == id;
                    if i < g1.vertices@.len() {
                        assert(g1.vertices@[i] == g2.vertices@[i]);
                    }
                }
                if g1.tiene(id) {
                    let i = choose|i: int| 0 <= i < g1.vertices@.len() && #[trigger] g1.vertices@[i].id@ == id;
                    assert(g1.vertices@[i] == g2.vertices@[i]);
                }
                if id == b@ && !g1.tiene(id) {
                    assert(g2.vertices@[g2.vertices@.len() - 1].id@ == b@);
                }
            }
            g.aristas.push(Arista { lazo: (a.to_owned(), b.to_owned()), distancia: w });
            proof {
                let ant = dato@.subrange(0, k as int);
                let sig = dato@.subrange(0, k + 1);
                assert forall|id: Seq<char>|
                    es_extremo(sig, id) <==> (es_extremo(ant, id) || id == a@ || id == b@) by {
                    if es_extremo(sig, id) {
                        let j = choose|j: int| 0 <= j < sig.len() && (#[trigger] sig[j].1@ == id || sig[j].2@ == id);
                        if j < k {
                            assert(ant[j] == sig[j]);
                        }
                    }
                    if es_extremo(ant, id) {
                        let j = choose|j: int| 0 <= j < ant.len() && (#[trigger] ant[j].1@ == id || ant[j].2@ == id);
                        assert(ant[j] == sig[j]);
                    }
                    if id == a@ || id == b@ {
                        assert(sig[k as int] == dato@[k as int]);
                        assert(sig[k as int].1@ == id || sig[k as int].2@ == id);
                    }
                }
                assert forall|j: int| 0 <= j < g.aristas@.len() implies g.tiene(#[trigger] g.aristas@[j].lazo.0@)
                    && g.tiene(g.aristas@[j].lazo.1@) by {
                    assert(g.vertices == g2.vertices);
                    if j < k {
                        assert(g.aristas@[j] == g2.aristas@[j]);
                        assert(g2.tiene(g2.aristas@[j].lazo.0@));
                        assert(g2.tiene(g2.aristas@[j].lazo.1@));
                    } else {
                        assert(g2.tiene(a@));
                        assert(g2.tiene(b@));
                    }
                }
                assert forall|id: Seq<char>| g.tiene(id) <==> es_extremo(sig, id) by {
                    assert(g.vertices == g2.vertices);
                    assert(g2.tiene(id) <==> (g1.tiene(id) || id == b@));
                    assert(g1.tiene(id) <==> (g0.tiene(id) || id == a@));
                    assert(g0.tiene(id) <==> es_extremo(ant, id));
                }
            }
            k += 1;
        }
        assert(dato@.subrange(0, k as int) == dato@);
        g
    }

    /// Whether a vertex named `id` is in the graph.
    pub open spec fn tiene(&self, id: Seq<char>) -> bool {
        exists|i: int| 0 <= i < self.vertices@.len() && #[trigger] self.vertices@[i].id@ == id
    }

    /// Vertex ids are pairwise distinct and every edge endpoint is a vertex.
    pub open spec fn wf(&self) -> bool {
        &&& forall|i: int, j: int|
            0 <= i < self.vertices@.len() && 0 <= j < self.vertices@.len() && i != j
                ==> #[trigger] self.vertices@[i].id@ != #[trigger] self.vertices@[j].id@
        &&& forall|k: int|
            0 <= k < self.aristas@.len() ==> self.tiene(#[trigger] self.aristas@[k].lazo.0@)
                && self.tiene(self.aristas@[k].lazo.1@)
    }

    /// Position of the vertex named `id`, if any.
    pub fn indice(&self, id: &str) -> (r: Option<usize>)
        ensures
            match r {
                Some(i) => i < self.vertices@.len() && self.vertices@[i as int].id@ == id@,
                None => !self.tiene(id@),
            },
    {
        let buscado = id.to_owned();
        let mut i: usize = 0;
        while i < self.vertices.len()
            invariant
                buscado@ == id@,
                i <= self.vertices@.len(),
                forall|j: int| 0 <= j < i ==> self.vertices@[j].id@ != id@,
            decreases self.vertices@.len() - i,
        {
            if self.vertices[i].id == buscado {
                return Some(i);
            }
            i += 1;
        }
        None
    }

    pub fn buscar_vecinos(&self, id: &str) -> (r: Vec<(u64, String)>)
        ensures
            vista_vecinos(r@) == vecinos_de(self.aristas@, id@),
    {
        let buscado = id.to_owned();
        let mut r: Vec<(u64, String)> = Vec::new();
        let mut k: usize = 0;
        while k < self.aristas.len()
            invariant
                buscado@ == id@,
                k <= self.aristas@.len(),
                vista_vecinos(r@) == vecinos_de(self.aristas@.subrange(0, k as int), id@),
            decreases self.aristas@.len() - k,
        {
            let a = &self.aristas[k];
            proof {
                let ant = self.aristas@.subrange(0, k as int);
                let sig = self.aristas@.subrange(0, k + 1);
                assert(sig.drop_last() == ant);
                assert(sig.last() == *a);
            }
            if a.lazo.0 == buscado {
                r.push((a.distancia, a.lazo.1.clone()));
            } else if a.lazo.1 == buscado {
                r.push((a.distancia, a.lazo.0.clone()));
            }
            proof {
                let ant = self.aristas@.subrange(0, k as int);
                let sig = self.aristas@.subrange(0, k + 1);
                assert(vista_vecinos(r@) =~= vecinos_de(sig, id@));
            }
            k += 1;
        }
        assert(self.aristas@.subrange(0, k as int) == self.aristas@);
        r
    }

    pub fn buscar_id_mut(&mut self, id: &str) -> (r: Option<&mut Vertice>)
        ensures
            final(self).aristas == old(self).aristas,
            match r {
                Some(v) => exists|i: int|
                    0 <= i < old(self).vertices@.len() && old(self).vertices@[i].id@ == id@
                        && *v == old(self).vertices@[i]
                        && final(self).vertices@ == old(self).vertices@.update(i, *final(v)),
                None => !old(self).tiene(id@) && final(self).vertices@ == old(self).vertices@,
            },
    {
        match self.indice(id) {
            Some(i) => Some(&mut self.vertices[i]),
            None => None,
        }
    }
}

} // verus!
