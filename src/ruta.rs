use vstd::prelude::*;
use vstd::string::*;
use crate::grafo::{arista_entre, Arista, Vertice};

verus! {

/// A path as the sequence of its vertices, from source to destination.
#[derive(Clone, Debug, PartialEq, Eq)]
pub struct Ruta {
    pub verts: Vec<Vertice>,
}

/// The distance recorded on the last vertex, or 0 when there is none.
pub open spec fn distancia_total(verts: Seq<Vertice>) -> u64 {
    if verts.len() == 0 {
        0
    } else {
        match verts.last().distancia.1 {
            Some(x) => x,
            None => 0,
        }
    }
}

/// The sum of a sequence of weights.
pub open spec fn suma(ws: Seq<u64>) -> int
    decreases ws.len(),
{
    if ws.len() == 0 {
        0
    } else {
        suma(ws.drop_last()) + ws.last()
    }
}

/// Whether `b` follows `a` on a walk: `b` names `a` as its predecessor, both
/// distances are set, and an edge joins them whose weight is the increase in
/// distance.
pub open spec fn enlace(aristas: Seq<Arista>, a: Vertice, b: Vertice) -> bool {
    &&& b.distancia.0 is Some
    &&& b.distancia.0->0@ == a.id@
    &&& b.distancia.1 is Some
    &&& a.distancia.1 is Some
    &&& a.distancia.1->0 <= b.distancia.1->0
    &&& arista_entre(aristas, a.id@, b.id@, (b.distancia.1->0 - a.distancia.1->0) as u64)
}

/// Whether `v` is a walk of the graph with edges `aristas` from `origen` to
/// `destino`: the first vertex is at distance 0 with no predecessor, each later
/// vertex names the one before it as predecessor, and consecutive vertices are
/// joined by an edge whose weight is the increase in recorded distance.
pub open spec fn es_recorrido(
    aristas: Seq<Arista>,
    v: Seq<Vertice>,
    origen: Seq<char>,
    destino: Seq<char>,
) -> bool {
    &&& v.len() >= 1
    &&& v[0].id@ == origen
    &&& v.last().id@ == destino
    &&& v[0].distancia.0 is None
    &&& v[0].distancia.1 == Some(0u64)
    &&& forall|i: int| 1 <= i < v.len() ==> enlace(aristas, v[i - 1], #[trigger] v[i])
}

/// The total distance of a walk is the sum of the weights of edges of the graph
/// that join its consecutive vertices.
pub proof fn ley_distancia_es_suma_de_pesos(
    aristas: Seq<Arista>,
    r: Ruta,
    origen: Seq<char>,
    destino: Seq<char>,
)
    requires
        es_recorrido(aristas, r.verts@, origen, destino),
    ensures
        exists|ws: Seq<u64>|
            {
                &&& ws.len() == r.verts@.len() - 1
                &&& forall|i: int|
                    0 <= i < ws.len() ==> arista_entre(
                        aristas,
                        r.verts@[i].id@,
                        r.verts@[i + 1].id@,
                        #[trigger] ws[i],
                    )
                &&& distancia_total(r.verts@) == suma(ws)
            },
{
    let v = r.verts@;
    let ws = Seq::new(
        (v.len() - 1) as nat,
        |i: int| (v[i + 1].distancia.1->0 - v[i].distancia.1->0) as u64,
    );
    assert forall|i: int| 0 <= i < ws.len() implies arista_entre(
        aristas,
        v[i].id@,
        v[i + 1].id@,
        #[trigger] ws[i],
    ) by {
        assert(enlace(aristas, v[i], v[i + 1]));
    }
    lemma_suma_telescopica(v, ws, ws.len());
    assert(ws.subrange(0, ws.len() as int) == ws);
}

proof fn lemma_suma_telescopica(v: Seq<Vertice>, ws: Seq<u64>, k: nat)
    requires
        v.len() >= 1,
        ws.len() == v.len() - 1,
        k <= ws.len(),
        v[0].distancia.1 == Some(0u64),
        forall|i: int|
            1 <= i < v.len() ==> (#[trigger] v[i]).distancia.1 is Some && v[i - 1].distancia.1->0
                <= v[i].distancia.1->0,
        forall|i: int|
            0 <= i < ws.len() ==> #[trigger] ws[i] == (v[i + 1].distancia.1->0
                - v[i].distancia.1->0) as u64,
    ensures
        suma(ws.subrange(0, k as int)) == v[k as int].distancia.1->0,
    decreases k,
{
    if k > 0 {
        lemma_suma_telescopica(v, ws, (k - 1) as nat);
        assert(ws.subrange(0, k as int).drop_last() == ws.subrange(0, k - 1));
        assert(v[k as int].distancia.1 is Some);
    }
}

/// The vertex names of `v`, each followed by a space.
pub open spec fn texto_ids(v: Seq<Vertice>) -> Seq<char>
    decreases v.len(),
{
    if v.len() == 0 {
        seq![]
    } else {
        texto_ids(v.drop_last()) + v.last().id@ + seq![' ']
    }
}

/// The display text of a route: its vertex names in order, in brackets.
pub open spec fn texto_ruta(v: Seq<Vertice>) -> Seq<char> {
    seq!['[', ' '] + texto_ids(v) + seq![']']
}

impl Ruta {
    /// The route as text, e.g. `[ A C F H ]`.
    pub fn to_string(&self) -> (r: String)
        ensures
            r@ == texto_ruta(self.verts@),
    {
        proof {
            reveal_strlit("[ ");
            reveal_strlit(" ");
            reveal_strlit("]");
        }
        let mut r = String::from_str("[ ");
        let mut i: usize = 0;
        while i < self.verts.len()
            invariant
                i <= self.verts@.len(),
                r@ == seq!['[', ' '] + texto_ids(self.verts@.subrange(0, i as int)),
            decreases self.verts@.len() - i,
        {
            proof {
                let sig = self.verts@.subrange(0, i + 1);
                assert(sig.drop_last() == self.verts@.subrange(0, i as int));
            }
            r.append(self.verts[i].id.as_str());
            r.append(" ");
            proof {
                let sig = self.verts@.subrange(0, i + 1);
                assert(sig.last() == self.verts@[i as int]);
                assert(texto_ids(sig) == texto_ids(sig.drop_last()) + sig.last().id@ + seq![' ']);
                reveal_strlit(" ");
                assert(" "@ =~= seq![' ']);
                assert(r@ =~= seq!['[', ' '] + texto_ids(sig));
            }
            i += 1;
        }
        r.append("]");
        assert(self.verts@.subrange(0, i as int) == self.verts@);
        assert(r@ =~= texto_ruta(self.verts@));
        r
    }

    pub fn new(dato: Vec<Vertice>) -> (r: Ruta)
        ensures
            r.verts == dato,
    {
        Ruta { verts: dato }
    }

    /// The distance recorded on the last vertex (0 for an empty route or an
    /// unset distance).
    pub fn get_distancia(&self) -> (r: u64)
        ensures
            r == distancia_total(self.verts@),
    {
        if self.verts.is_empty() {
            0
        } else {
            match self.verts[self.verts.len() - 1].distancia.1 {
                Some(x) => x,
                None => 0,
            }
        }
    }
}

} // verus!
