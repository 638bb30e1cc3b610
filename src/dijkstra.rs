use vstd::prelude::*;
use crate::grafo::{
    arista_entre, dist_menor, lemma_aristas_en_vecinos, lemma_vecinos_son_aristas, menor_dist,
    vecinos_de, vista_vecinos, Arista, Grafo, Vertice,
};
use crate::ruta::{
    distancia_total, enlace, es_recorrido, ley_distancia_es_suma_de_pesos, suma, Ruta,
};

verus! {

/// Whether some edge joins `a` and `b`.
pub open spec fn adyacentes(aristas: Seq<Arista>, a: Seq<char>, b: Seq<char>) -> bool {
    exists|w: u64| arista_entre(aristas, a, b, w)
}

/// Whether `p` is a nonempty sequence of names in which consecutive names are
/// joined by an edge.
pub open spec fn es_camino(aristas: Seq<Arista>, p: Seq<Seq<char>>) -> bool {
    &&& p.len() >= 1
    &&& forall|i: int| 0 <= i < p.len() - 1 ==> #[trigger] adyacentes(aristas, p[i], p[i + 1])
}

/// Whether `p` is a nonempty sequence of names and `ws` the weights of edges
/// that join its consecutive names.
pub open spec fn es_camino_pesado(aristas: Seq<Arista>, p: Seq<Seq<char>>, ws: Seq<u64>) -> bool {
    &&& p.len() >= 1
    &&& ws.len() == p.len() - 1
    &&& forall|i: int| 0 <= i < ws.len() ==> arista_entre(aristas, p[i], p[i + 1], #[trigger] ws[i])
}

/// The names of a sequence of vertices.
pub open spec fn nombres(v: Seq<Vertice>) -> Seq<Seq<char>> {
    v.map_values(|x: Vertice| x.id@)
}

/// Whether a walk leads from `a` to `b`.
pub open spec fn conectado(aristas: Seq<Arista>, a: Seq<char>, b: Seq<char>) -> bool {
    exists|p: Seq<Seq<char>>| es_camino(aristas, p) && p[0] == a && p.last() == b
}

/// The largest edge weight (0 without edges).
pub open spec fn peso_max(aristas: Seq<Arista>) -> u64
    decreases aristas.len(),
{
    if aristas.len() == 0 {
        0
    } else {
        let m = peso_max(aristas.drop_last());
        if aristas.last().distancia > m {
            aristas.last().distancia
        } else {
            m
        }
    }
}

/// Every distance the search can record fits in a `u64`: the number of
/// vertices times the largest weight does.
pub open spec fn distancias_caben(g: Grafo) -> bool {
    g.vertices@.len() * peso_max(g.aristas@) <= u64::MAX
}

proof fn lemma_peso_max(aristas: Seq<Arista>, k: int)
    requires
        0 <= k < aristas.len(),
    ensures
        aristas[k].distancia <= peso_max(aristas),
    decreases aristas.len(),
{
    if k < aristas.len() - 1 {
        lemma_peso_max(aristas.drop_last(), k);
        assert(aristas.drop_last()[k] == aristas[k]);
    }
}

/// A walk recorded as a route connects its ends.
pub proof fn lemma_recorrido_conecta(
    aristas: Seq<Arista>,
    v: Seq<Vertice>,
    origen: Seq<char>,
    destino: Seq<char>,
)
    requires
        es_recorrido(aristas, v, origen, destino),
    ensures
        conectado(aristas, origen, destino),
{
    let p = nombres(v);
    assert forall|i: int| 0 <= i < p.len() - 1 implies #[trigger] adyacentes(
        aristas,
        p[i],
        p[i + 1],
    ) by {
        assert(enlace(aristas, v[i], v[i + 1]));
    }
    assert(es_camino(aristas, p));
    assert(p[0] == v[0].id@);
    assert(p.last() == v.last().id@);
}

/// Position of the unvisited vertex with a set distance that comes first by
/// distance (the earliest one among equals), if any.
fn seleccionar(dist: &Vec<Option<u64>>, visitado: &Vec<bool>) -> (r: Option<usize>)
    requires
        dist@.len() == visitado@.len(),
    ensures
        match r {
            Some(m) => {
                &&& m < dist@.len()
                &&& !visitado@[m as int]
                &&& dist@[m as int] is Some
                &&& forall|j: int|
                    0 <= j < dist@.len() && !visitado@[j] && dist@[j] is Some
                        ==> dist@[m as int]->0 <= (#[trigger] dist@[j])->0
            },
            None => forall|j: int|
                0 <= j < dist@.len() && !visitado@[j] ==> (#[trigger] dist@[j]) is None,
        },
{
    let mut mejor: Option<usize> = None;
    let mut i: usize = 0;
    while i < dist.len()
        invariant
            dist@.len() == visitado@.len(),
            i <= dist@.len(),
            match mejor {
                Some(m) => {
                    &&& m < i
                    &&& !visitado@[m as int]
                    &&& dist@[m as int] is Some
                    &&& forall|j: int|
                        0 <= j < i && !visitado@[j] && dist@[j] is Some
                            ==> dist@[m as int]->0 <= (#[trigger] dist@[j])->0
                },
                None => forall|j: int| 0 <= j < i && !visitado@[j] ==> (#[trigger] dist@[j]) is None,
            },
        decreases dist@.len() - i,
    {
        if !visitado[i] {
            match mejor {
                Some(m) => {
                    if menor_dist(dist[i], dist[m]) {
                        mejor = Some(i);
                    }
                },
                None => {
                    if dist[i].is_some() {
                        mejor = Some(i);
                    }
                },
            }
        }
        i += 1;
    }
    mejor
}

/// The predecessor link of `v`, if any, is sound: it names a visited vertex
/// joined to `v` by an edge whose weight is the increase in distance, and if
/// `v` is visited too, one of lower rank.
pub open spec fn enlace_valido(
    g: Grafo,
    dist: Seq<Option<u64>>,
    pred: Seq<Option<usize>>,
    vis: Seq<bool>,
    rango: Seq<nat>,
    v: int,
) -> bool {
    pred[v] is Some ==> {
        let p = pred[v]->0 as int;
        &&& 0 <= p < g.vertices@.len()
        &&& vis[p]
        &&& dist[v] is Some
        &&& dist[p] is Some
        &&& dist[p]->0 <= dist[v]->0
        &&& arista_entre(
            g.aristas@,
            g.vertices@[p].id@,
            g.vertices@[v].id@,
            (dist[v]->0 - dist[p]->0) as u64,
        )
        &&& vis[v] ==> rango[p] < rango[v]
    }
}

/// The search state records sound predecessor links: the source is at
/// distance 0 with no predecessor, every other vertex with a set distance has
/// a visited predecessor joined to it by an edge whose weight is the increase
/// in distance, and along links between visited vertices the visiting rank
/// decreases.
pub open spec fn predecesores_validos(
    g: Grafo,
    dist: Seq<Option<u64>>,
    pred: Seq<Option<usize>>,
    vis: Seq<bool>,
    rango: Seq<nat>,
    s: int,
) -> bool {
    let n = g.vertices@.len();
    &&& dist.len() == n
    &&& pred.len() == n
    &&& vis.len() == n
    &&& rango.len() == n
    &&& 0 <= s < n
    &&& dist[s] == Some(0u64)
    &&& pred[s] is None
    &&& forall|v: int| 0 <= v < n ==> #[trigger] enlace_valido(g, dist, pred, vis, rango, v)
    &&& forall|v: int| 0 <= v < n && (#[trigger] dist[v]) is Some && pred[v] is None ==> v == s
}

/// The route record of vertex `v`: its name, its predecessor's name and its distance.
pub open spec fn registro(g: Grafo, dist: Seq<Option<u64>>, pred: Seq<Option<usize>>, v: int) -> Vertice {
    Vertice {
        id: g.vertices@[v].id,
        distancia: (
            match pred[v] {
                Some(p) => Some(g.vertices@[p as int].id),
                None => None,
            },
            dist[v],
        ),
    }
}

/// Walks the predecessor links back from `d` to the source and returns the
/// vertices met, source first.
fn ruta(
    g: &Grafo,
    dist: &Vec<Option<u64>>,
    pred: &Vec<Option<usize>>,
    d: usize,
    Ghost(s): Ghost<int>,
    Ghost(vis): Ghost<Seq<bool>>,
    Ghost(rango): Ghost<Seq<nat>>,
) -> (r: Ruta)
    requires
        predecesores_validos(*g, dist@, pred@, vis, rango, s),
        d < g.vertices@.len(),
        vis[d as int],
        dist@[d as int] is Some,
    ensures
        es_recorrido(g.aristas@, r.verts@, g.vertices@[s].id@, g.vertices@[d as int].id@),
        d == s ==> r.verts@.len() == 1,
        r.verts@.last().distancia.1 == dist@[d as int],
{
    let mut verts: Vec<Vertice> = Vec::new();
    let mut actual: usize = d;
    loop
        invariant
            predecesores_validos(*g, dist@, pred@, vis, rango, s),
            actual < g.vertices@.len(),
            vis[actual as int],
            dist@[actual as int] is Some,
            verts@.len() == 0 ==> actual == d,
            verts@.len() > 0 ==> enlace(g.aristas@, registro(*g, dist@, pred@, actual as int), verts@[0]),
            verts@.len() > 0 ==> verts@.last().id@ == g.vertices@[d as int].id@,
            verts@.len() > 0 ==> verts@.last().distancia.1 == dist@[d as int],
            forall|i: int| 1 <= i < verts@.len() ==> enlace(g.aristas@, verts@[i - 1], #[trigger] verts@[i]),
            d == s ==> verts@.len() == 0,
        decreases rango[actual as int],
    {
        assert(enlace_valido(*g, dist@, pred@, vis, rango, actual as int));
        let anterior = match pred[actual] {
            Some(p) => Some(g.vertices[p].id.clone()),
            None => None,
        };
        let x = Vertice { id: g.vertices[actual].id.clone(), distancia: (anterior, dist[actual]) };
        assert(x == registro(*g, dist@, pred@, actual as int));
        let ghost previos = verts@;
        verts.insert(0, x);
        assert forall|i: int| 1 <= i < verts@.len() implies enlace(g.aristas@, verts@[i - 1], #[trigger] verts@[i]) by {
            if i >= 2 {
                assert(verts@[i] == previos[i - 1]);
                assert(verts@[i - 1] == previos[i - 2]);
            }
        }
        match pred[actual] {
            Some(p) => {
                assert(pred@[actual as int] is Some);
                actual = p;
            },
            None => {
                assert(dist@[actual as int] is Some);
                return Ruta { verts };
            },
        }
    }
}

/// An edge endpoint is a vertex of a well-formed graph.
proof fn lemma_extremos_son_vertices(g: Grafo, a: Seq<char>, b: Seq<char>, w: u64)
    requires
        g.wf(),
        arista_entre(g.aristas@, a, b, w),
    ensures
        g.tiene(a),
        g.tiene(b),
{
    let k = choose|k: int|
        0 <= k < g.aristas@.len() && (#[trigger] g.aristas@[k]).distancia == w && ((
        g.aristas@[k].lazo.0@ == a && g.aristas@[k].lazo.1@ == b) || (g.aristas@[k].lazo.0@
            == b && g.aristas@[k].lazo.1@ == a));
    assert(g.tiene(g.aristas@[k].lazo.0@) && g.tiene(g.aristas@[k].lazo.1@));
}

/// When no unvisited vertex has a set distance and every visited vertex has
/// all its neighbours reached, each walk from the source stays among visited
/// vertices.
proof fn lemma_cierre(
    g: Grafo,
    dist: Seq<Option<u64>>,
    vis: Seq<bool>,
    s: int,
    p: Seq<Seq<char>>,
    k: int,
)
    requires
        g.wf(),
        dist.len() == g.vertices@.len(),
        vis.len() == g.vertices@.len(),
        0 <= s < g.vertices@.len(),
        dist[s] is Some,
        forall|j: int| 0 <= j < dist.len() && !vis[j] ==> (#[trigger] dist[j]) is None,
        forall|v: int, u: int|
            0 <= v < g.vertices@.len() && 0 <= u < g.vertices@.len() && #[trigger] vis[v]
                && #[trigger] adyacentes(g.aristas@, g.vertices@[v].id@, g.vertices@[u].id@)
                ==> dist[u] is Some,
        es_camino(g.aristas@, p),
        p[0] == g.vertices@[s].id@,
        0 <= k < p.len(),
    ensures
        exists|v: int| 0 <= v < g.vertices@.len() && vis[v] && #[trigger] g.vertices@[v].id@ == p[k],
    decreases k,
{
    if k == 0 {
        assert(vis[s]);
    } else {
        lemma_cierre(g, dist, vis, s, p, k - 1);
        let v = choose|v: int|
            0 <= v < g.vertices@.len() && vis[v] && #[trigger] g.vertices@[v].id@ == p[k - 1];
        let x = p[k - 1];
        let y = p[k];
        assert(adyacentes(g.aristas@, p[k - 1], p[(k - 1) + 1]));
        assert(adyacentes(g.aristas@, x, y));
        let w = choose|w: u64| arista_entre(g.aristas@, x, y, w);
        lemma_extremos_son_vertices(g, x, y, w);
        let u = choose|u: int| 0 <= u < g.vertices@.len() && #[trigger] g.vertices@[u].id@ == p[k];
        assert(adyacentes(g.aristas@, g.vertices@[v].id@, g.vertices@[u].id@));
        assert(dist[u] is Some);
        assert(vis[u]);
    }
}

/// Lowering the distance of an unvisited vertex `u` to `t`, through an edge
/// from the visited vertex `m`, keeps the predecessor links sound.
proof fn lemma_actualizar(
    g: Grafo,
    dist: Seq<Option<u64>>,
    pred: Seq<Option<usize>>,
    vis: Seq<bool>,
    rango: Seq<nat>,
    s: int,
    m: usize,
    u: int,
    t: u64,
)
    requires
        predecesores_validos(g, dist, pred, vis, rango, s),
        m < g.vertices@.len(),
        0 <= u < g.vertices@.len(),
        vis[m as int],
        !vis[u],
        dist[m as int] is Some,
        dist[m as int]->0 <= t,
        dist_menor(Some(t), dist[u]),
        arista_entre(g.aristas@, g.vertices@[m as int].id@, g.vertices@[u].id@, (t - dist[m as int]->0) as u64),
    ensures
        predecesores_validos(
            g,
            dist.update(u, Some(t)),
            pred.update(u, Some(m)),
            vis,
            rango,
            s,
        ),
{
    let d2 = dist.update(u, Some(t));
    let p2 = pred.update(u, Some(m));
    assert forall|v: int| 0 <= v < g.vertices@.len() implies #[trigger] enlace_valido(
        g,
        d2,
        p2,
        vis,
        rango,
        v,
    ) by {
        if v != u {
            assert(enlace_valido(g, dist, pred, vis, rango, v));
            if pred[v] is Some {
                let p = pred[v]->0 as int;
                assert(p != u);
                assert(d2[p] == dist[p]);
            }
        } else {
            assert(m != u);
            assert(d2[m as int] == dist[m as int]);
        }
    }
    assert forall|v: int|
        0 <= v < g.vertices@.len() && (#[trigger] d2[v]) is Some && p2[v] is None implies v == s by {
        assert(dist[v] is Some);
    }
}

/// Relaxes the edges at the just-visited vertex `m`: each neighbour whose
/// distance is unset, or larger than the distance of `m` plus the edge weight,
/// takes that sum as its distance and `m` as its predecessor.
fn relajar(
    g: &Grafo,
    m: usize,
    dist: &mut Vec<Option<u64>>,
    pred: &mut Vec<Option<usize>>,
    visitado: &Vec<bool>,
    Ghost(s): Ghost<int>,
    Ghost(rango): Ghost<Seq<nat>>,
    Ghost(paso): Ghost<nat>,
)
    requires
        g.wf(),
        predecesores_validos(*g, old(dist)@, old(pred)@, visitado@, rango, s),
        m < g.vertices@.len(),
        visitado@[m as int],
        old(dist)@[m as int] is Some,
        forall|v: int|
            0 <= v < g.vertices@.len() && #[trigger] visitado@[v] ==> old(dist)@[v] is Some
                && old(dist)@[v]->0 <= old(dist)@[m as int]->0,
        distancias_caben(*g) ==> 1 <= paso <= g.vertices@.len() && old(dist)@[m as int]->0 <= (
        paso - 1) * peso_max(g.aristas@),
    ensures
        predecesores_validos(*g, final(dist)@, final(pred)@, visitado@, rango, s),
        forall|v: int|
            0 <= v < g.vertices@.len() && #[trigger] final(dist)@[v] != old(dist)@[v] ==> {
                &&& !visitado@[v]
                &&& final(dist)@[v] is Some
                &&& old(dist)@[m as int]->0 <= final(dist)@[v]->0
                &&& distancias_caben(*g) ==> final(dist)@[v]->0 <= paso * peso_max(g.aristas@)
            },
        forall|v: int|
            0 <= v < g.vertices@.len() && (#[trigger] old(dist)@[v]) is Some ==> final(dist)@[v] is Some
                && final(dist)@[v]->0 <= old(dist)@[v]->0,
        distancias_caben(*g) ==> forall|u: int, w: u64|
            0 <= u < g.vertices@.len() && #[trigger] arista_entre(
                g.aristas@,
                g.vertices@[m as int].id@,
                g.vertices@[u].id@,
                w,
            ) ==> final(dist)@[u] is Some && final(dist)@[u]->0 <= old(dist)@[m as int]->0 + w,
        distancias_caben(*g) ==> forall|u: int|
            0 <= u < g.vertices@.len() && #[trigger] adyacentes(
                g.aristas@,
                g.vertices@[m as int].id@,
                g.vertices@[u].id@,
            ) ==> final(dist)@[u] is Some,
{
    let ghost a = g.aristas@;
    let ghost dist0 = dist@;
    let dm = dist[m].unwrap();
    let vecinos = g.buscar_vecinos(g.vertices[m].id.as_str());
    let ghost vs = vista_vecinos(vecinos@);
    let mut j: usize = 0;
    while j < vecinos.len()
        invariant
            g.wf(),
            vs == vista_vecinos(vecinos@),
            vs == vecinos_de(a, g.vertices@[m as int].id@),
            a == g.aristas@,
            j <= vecinos@.len(),
            predecesores_validos(*g, dist@, pred@, visitado@, rango, s),
            m < g.vertices@.len(),
            dist@[m as int] == Some(dm),
            dist0[m as int] == Some(dm),
            visitado@[m as int],
            visitado@.len() == g.vertices@.len(),
            dist0.len() == g.vertices@.len(),
            forall|v: int|
                0 <= v < g.vertices@.len() && #[trigger] visitado@[v] ==> dist0[v] is Some
                    && dist0[v]->0 <= dm,
            distancias_caben(*g) ==> 1 <= paso <= g.vertices@.len() && dm <= (paso - 1) * peso_max(a),
            forall|v: int|
                0 <= v < g.vertices@.len() && #[trigger] dist@[v] != dist0[v] ==> {
                    &&& !visitado@[v]
                    &&& dist@[v] is Some
                    &&& dm <= dist@[v]->0
                    &&& distancias_caben(*g) ==> dist@[v]->0 <= paso * peso_max(a)
                },
            forall|v: int|
                0 <= v < g.vertices@.len() && (#[trigger] dist0[v]) is Some ==> dist@[v] is Some
                    && dist@[v]->0 <= dist0[v]->0,
            distancias_caben(*g) ==> forall|jj: int, u: int|
                0 <= jj < j && 0 <= u < g.vertices@.len() && #[trigger] vs[jj].1
                    == #[trigger] g.vertices@[u].id@ ==> dist@[u] is Some && dist@[u]->0 <= dm
                    + vs[jj].0,
        decreases vecinos@.len() - j,
    {
        let w = vecinos[j].0;
        proof {
            assert(vs[j as int] == (w, vecinos@[j as int].1@));
            lemma_vecinos_son_aristas(a, g.vertices@[m as int].id@, j as int);
            lemma_extremos_son_vertices(*g, g.vertices@[m as int].id@, vs[j as int].1, w);
        }
        match g.indice(vecinos[j].1.as_str()) {
            Some(u) => {
                let ghost k = choose|k: int|
                    0 <= k < a.len() && (#[trigger] a[k]).distancia == w && ((a[k].lazo.0@
                        == g.vertices@[m as int].id@ && a[k].lazo.1@ == vs[j as int].1) || (
                    a[k].lazo.0@ == vs[j as int].1 && a[k].lazo.1@ == g.vertices@[m as int].id@));
                proof {
                    lemma_peso_max(a, k);
                    if distancias_caben(*g) {
                        let wm = peso_max(a);
                        assert((paso - 1) * wm + wm == paso * wm) by (nonlinear_arith);
                        assert(paso * wm <= g.vertices@.len() * wm) by (nonlinear_arith)
                            requires paso <= g.vertices@.len();
                    }
                }
                match dm.checked_add(w) {
                    Some(t) => {
                        if menor_dist(Some(t), dist[u]) {
                            let ghost d_ant = dist@;
                            let ghost p_ant = pred@;
                            dist[u] = Some(t);
                            pred[u] = Some(m);
                            proof {
                                assert(g.vertices@[u as int].id@ == vs[j as int].1);
                                lemma_actualizar(*g, d_ant, p_ant, visitado@, rango, s, m, u as int, t);
                            }
                        }
                    },
                    None => {},
                }
                proof {
                    assert(g.vertices@[u as int].id@ == vs[j as int].1);
                }
            },
            None => {},
        }
        j += 1;
    }
    proof {
        if distancias_caben(*g) {
            assert forall|u: int, w: u64|
                0 <= u < g.vertices@.len() && #[trigger] arista_entre(
                    g.aristas@,
                    g.vertices@[m as int].id@,
                    g.vertices@[u].id@,
                    w,
                ) implies dist@[u] is Some && dist@[u]->0 <= dm + w by {
                let idm = g.vertices@[m as int].id@;
                let idu = g.vertices@[u].id@;
                let k = choose|k: int|
                    0 <= k < a.len() && (#[trigger] a[k]).distancia == w && ((a[k].lazo.0@
                        == idm && a[k].lazo.1@ == idu) || (a[k].lazo.0@ == idu && a[k].lazo.1@
                        == idm));
                lemma_aristas_en_vecinos(a, idm, k);
                if u == m {
                } else {
                    assert(idu != idm);
                    let jj = choose|jj: int| 0 <= jj < vs.len() && vs[jj] == (w, idu);
                    assert(vs[jj].1 == g.vertices@[u].id@);
                }
            }
            assert forall|u: int|
                0 <= u < g.vertices@.len() && #[trigger] adyacentes(
                    g.aristas@,
                    g.vertices@[m as int].id@,
                    g.vertices@[u].id@,
                ) implies dist@[u] is Some by {
                let w = choose|w: u64| arista_entre(a, g.vertices@[m as int].id@, g.vertices@[u].id@, w);
            }
        }
    }
}

proof fn lemma_suma_no_negativa(ws: Seq<u64>)
    ensures
        suma(ws) >= 0,
    decreases ws.len(),
{
    if ws.len() > 0 {
        lemma_suma_no_negativa(ws.drop_last());
    }
}

/// Along a weighted walk from the visited source, while every edge out of a
/// visited vertex is relaxed, each prefix either ends at a visited vertex
/// whose distance is at most the prefix weight, or is at least as heavy as
/// the distance of `m`, the unvisited vertex that comes first by distance.
proof fn lemma_frontera(
    g: Grafo,
    dist: Seq<Option<u64>>,
    vis: Seq<bool>,
    s: int,
    m: int,
    p: Seq<Seq<char>>,
    ws: Seq<u64>,
    k: int,
)
    requires
        g.wf(),
        dist.len() == g.vertices@.len(),
        vis.len() == g.vertices@.len(),
        0 <= s < g.vertices@.len(),
        dist[s] == Some(0u64),
        vis[s],
        forall|v: int| 0 <= v < g.vertices@.len() && #[trigger] vis[v] ==> dist[v] is Some,
        forall|v: int, u: int, w: u64|
            0 <= v < g.vertices@.len() && 0 <= u < g.vertices@.len() && #[trigger] vis[v]
                && #[trigger] arista_entre(g.aristas@, g.vertices@[v].id@, g.vertices@[u].id@, w)
                ==> dist[u] is Some && dist[u]->0 <= dist[v]->0 + w,
        0 <= m < g.vertices@.len(),
        !vis[m],
        dist[m] is Some,
        forall|w: int|
            0 <= w < g.vertices@.len() && !vis[w] && (#[trigger] dist[w]) is Some ==> dist[m]->0
                <= dist[w]->0,
        es_camino_pesado(g.aristas@, p, ws),
        p[0] == g.vertices@[s].id@,
        0 <= k < p.len(),
    ensures
        (exists|v: int|
            0 <= v < g.vertices@.len() && vis[v] && #[trigger] g.vertices@[v].id@ == p[k]
                && dist[v]->0 <= suma(ws.subrange(0, k))) || dist[m]->0 <= suma(ws.subrange(0, k)),
    decreases k,
{
    if k == 0 {
        assert(ws.subrange(0, 0) =~= Seq::<u64>::empty());
        assert(g.vertices@[s].id@ == p[0]);
    } else {
        lemma_frontera(g, dist, vis, s, m, p, ws, k - 1);
        assert(ws.subrange(0, k).drop_last() == ws.subrange(0, k - 1));
        assert(ws.subrange(0, k).last() == ws[k - 1]);
        let x = p[k - 1];
        let y = p[k];
        let w = ws[k - 1];
        assert(arista_entre(g.aristas@, p[k - 1], p[(k - 1) + 1], ws[k - 1]));
        assert(arista_entre(g.aristas@, x, y, w));
        if exists|v: int|
            0 <= v < g.vertices@.len() && vis[v] && #[trigger] g.vertices@[v].id@ == p[k - 1]
                && dist[v]->0 <= suma(ws.subrange(0, k - 1)) {
            let v = choose|v: int|
                0 <= v < g.vertices@.len() && vis[v] && #[trigger] g.vertices@[v].id@ == p[k - 1]
                    && dist[v]->0 <= suma(ws.subrange(0, k - 1));
            lemma_extremos_son_vertices(g, x, y, w);
            let u = choose|u: int| 0 <= u < g.vertices@.len() && #[trigger] g.vertices@[u].id@ == y;
            assert(arista_entre(g.aristas@, g.vertices@[v].id@, g.vertices@[u].id@, w));
            assert(dist[u] is Some && dist[u]->0 <= dist[v]->0 + w);
            if !vis[u] {
                assert(dist[m]->0 <= dist[u]->0);
            }
        }
    }
}

/// What a shortest-route query from `origen` to `destino` answers:
/// - nothing when `origen` is not a vertex;
/// - when it answers, a walk of the graph from `origen` to `destino`, with
///   the distances recorded along it;
/// - the single vertex `origen` when `destino` is `origen`;
/// - when the distances fit in a `u64`: an answer exactly when `destino` can
///   be reached from `origen`, and no walk from `origen` to `destino` lighter
///   than the route's total distance.
pub open spec fn es_resultado(g: Grafo, origen: Seq<char>, destino: Seq<char>, r: Option<Ruta>) -> bool {
    &&& !g.tiene(origen) ==> r is None
    &&& r is Some ==> {
        &&& g.tiene(origen)
        &&& es_recorrido(g.aristas@, r->0.verts@, origen, destino)
        &&& conectado(g.aristas@, origen, destino)
    }
    &&& g.tiene(origen) && origen == destino ==> r is Some && r->0.verts@.len() == 1
    &&& g.tiene(origen) && conectado(g.aristas@, origen, destino) && distancias_caben(g) ==> r is Some
    &&& r is Some && distancias_caben(g) ==> forall|p: Seq<Seq<char>>, ws: Seq<u64>|
        #[trigger] es_camino_pesado(g.aristas@, p, ws) && p[0] == origen && p.last() == destino
            ==> distancia_total(r->0.verts@) <= suma(ws)
}

/// Two answers to the same query agree on whether a route exists and on its
/// total distance, when the distances fit in a `u64`.
pub proof fn ley_consultas_repetidas(
    g: Grafo,
    origen: Seq<char>,
    destino: Seq<char>,
    r1: Option<Ruta>,
    r2: Option<Ruta>,
)
    requires
        distancias_caben(g),
        es_resultado(g, origen, destino, r1),
        es_resultado(g, origen, destino, r2),
    ensures
        r1 is Some <==> r2 is Some,
        r1 is Some ==> distancia_total(r1->0.verts@) == distancia_total(r2->0.verts@),
{
    if r1 is Some && r2 is Some {
        lemma_recorrido_es_camino_pesado(g.aristas@, r1->0, origen, destino);
        lemma_recorrido_es_camino_pesado(g.aristas@, r2->0, origen, destino);
    }
}

/// The names along a recorded walk, with suitable edge weights, form a
/// weighted walk as heavy as the walk's total distance.
proof fn lemma_recorrido_es_camino_pesado(
    aristas: Seq<Arista>,
    r: Ruta,
    origen: Seq<char>,
    destino: Seq<char>,
)
    requires
        es_recorrido(aristas, r.verts@, origen, destino),
    ensures
        nombres(r.verts@)[0] == origen,
        nombres(r.verts@).last() == destino,
        exists|ws: Seq<u64>|
            #[trigger] es_camino_pesado(aristas, nombres(r.verts@), ws) && suma(ws)
                == distancia_total(r.verts@),
{
    ley_distancia_es_suma_de_pesos(aristas, r, origen, destino);
    let v = r.verts@;
    let p = nombres(v);
    let ws = choose|ws: Seq<u64>|
        {
            &&& ws.len() == v.len() - 1
            &&& forall|i: int|
                0 <= i < ws.len() ==> arista_entre(aristas, v[i].id@, v[i + 1].id@, #[trigger] ws[i])
            &&& distancia_total(v) == suma(ws)
        };
    assert forall|i: int| 0 <= i < ws.len() implies arista_entre(aristas, p[i], p[i + 1], #[trigger] ws[i]) by {
    }
    assert(es_camino_pesado(aristas, p, ws));
}

/// Marking the unvisited vertex `m` as visited, with the next rank, keeps the
/// predecessor links sound.
proof fn lemma_visitar(
    g: Grafo,
    dist: Seq<Option<u64>>,
    pred: Seq<Option<usize>>,
    vis: Seq<bool>,
    rango: Seq<nat>,
    s: int,
    m: int,
    paso: nat,
)
    requires
        predecesores_validos(g, dist, pred, vis, rango, s),
        0 <= m < g.vertices@.len(),
        !vis[m],
        forall|v: int| 0 <= v < g.vertices@.len() && #[trigger] vis[v] ==> rango[v] < paso,
    ensures
        predecesores_validos(g, dist, pred, vis.update(m, true), rango.update(m, paso), s),
{
    let vis2 = vis.update(m, true);
    let rango2 = rango.update(m, paso);
    assert forall|v: int| 0 <= v < g.vertices@.len() implies #[trigger] enlace_valido(
        g,
        dist,
        pred,
        vis2,
        rango2,
        v,
    ) by {
        assert(enlace_valido(g, dist, pred, vis, rango, v));
        if pred[v] is Some {
            let p = pred[v]->0 as int;
            assert(p != m);
        }
    }
}

/// Every set of positions below `n` has at most `n` elements.
proof fn lemma_cuantos(vistos: Set<int>, n: int)
    requires
        0 <= n,
        forall|v: int| #[trigger] vistos.contains(v) ==> 0 <= v < n,
    ensures
        vistos.finite(),
        vistos.len() <= n,
{
    vstd::set_lib::lemma_int_range(0, n);
    vstd::set_lib::lemma_len_subset(vistos, vstd::set_lib::set_int_range(0, n));
}

/// Searches for a shortest route from `origen` to `destino`, Dijkstra-style
/// with a linear scan for the next vertex. The search keeps its own working
/// state: the graph is not changed. Returns `None` when `origen` is not a
/// vertex, or when the search runs out of reached vertices before it selects
/// `destino`.
pub fn ruta_mas_corta(origen: &str, destino: &str, g: &Grafo) -> (r: Option<Ruta>)
    requires
        g.wf(),
    ensures
        es_resultado(*g, origen@, destino@, r),
{
    let s = match g.indice(origen) {
        Some(i) => i,
        None => return None,
    };
    let destino_s = destino.to_owned();
    let n = g.vertices.len();
    let mut dist: Vec<Option<u64>> = Vec::new();
    let mut pred: Vec<Option<usize>> = Vec::new();
    let mut visitado: Vec<bool> = Vec::new();
    let mut i: usize = 0;
    while i < n
        invariant
            i <= n,
            n == g.vertices@.len(),
            s < n,
            dist@.len() == i,
            pred@.len() == i,
            visitado@.len() == i,
            forall|v: int|
                0 <= v < i ==> (#[trigger] dist@[v]) == (if v == s {
                    Some(0u64)
                } else {
                    None
                }),
            forall|v: int| 0 <= v < i ==> (#[trigger] pred@[v]) is None,
            forall|v: int| 0 <= v < i ==> !(#[trigger] visitado@[v]),
        decreases n - i,
    {
        dist.push(
            if i == s {
                Some(0)
            } else {
                None
            },
        );
        pred.push(None);
        visitado.push(false);
        i += 1;
    }
    let ghost mut rango: Seq<nat> = Seq::new(n as nat, |v: int| 0nat);
    let ghost mut paso: nat = 0;
    let ghost mut vistos: Set<int> = Set::empty();
    proof {
        assert forall|v: int| 0 <= v < n implies #[trigger] enlace_valido(
            *g,
            dist@,
            pred@,
            visitado@,
            rango,
            v,
        ) by {
            assert(pred@[v] is None);
        }
    }
    loop
        invariant
            g.wf(),
            n == g.vertices@.len(),
            s < n,
            g.vertices@[s as int].id@ == origen@,
            destino_s@ == destino@,
            predecesores_validos(*g, dist@, pred@, visitado@, rango, s as int),
            forall|v: int|
                0 <= v < n && #[trigger] visitado@[v] ==> dist@[v] is Some && rango[v] < paso
                    && g.vertices@[v].id@ != destino@,
            forall|v: int, w: int|
                0 <= v < n && 0 <= w < n && #[trigger] visitado@[v] && !visitado@[w] && (
                #[trigger] dist@[w]) is Some ==> dist@[v]->0 <= dist@[w]->0,
            vistos.finite(),
            vistos.len() == paso,
            forall|v: int| #[trigger] vistos.contains(v) <==> (0 <= v < n && visitado@[v]),
            paso == 0 ==> forall|v: int| 0 <= v < n && (#[trigger] dist@[v]) is Some ==> v == s,
            paso > 0 ==> visitado@[s as int],
            distancias_caben(*g) ==> forall|v: int|
                0 <= v < n && (#[trigger] dist@[v]) is Some ==> dist@[v]->0 <= paso * peso_max(
                    g.aristas@,
                ),
            distancias_caben(*g) ==> forall|v: int, u: int|
                0 <= v < n && 0 <= u < n && #[trigger] visitado@[v] && #[trigger] adyacentes(
                    g.aristas@,
                    g.vertices@[v].id@,
                    g.vertices@[u].id@,
                ) ==> dist@[u] is Some,
            distancias_caben(*g) ==> forall|v: int, u: int, w: u64|
                0 <= v < n && 0 <= u < n && #[trigger] visitado@[v] && #[trigger] arista_entre(
                    g.aristas@,
                    g.vertices@[v].id@,
                    g.vertices@[u].id@,
                    w,
                ) ==> dist@[u] is Some && dist@[u]->0 <= dist@[v]->0 + w,
        decreases n - paso,
    {
        proof {
            lemma_cuantos(vistos, n as int);
        }
        let m = match seleccionar(&dist, &visitado) {
            Some(m) => m,
            None => {
                proof {
                    if paso == 0 {
                        assert(!vistos.contains(s as int));
                        assert(dist@[s as int] is Some);
                    }
                    if g.tiene(origen@) && conectado(g.aristas@, origen@, destino@)
                        && distancias_caben(*g) {
                        let p = choose|p: Seq<Seq<char>>|
                            es_camino(g.aristas@, p) && p[0] == origen@ && p.last() == destino@;
                        lemma_cierre(*g, dist@, visitado@, s as int, p, p.len() - 1);
                        let v = choose|v: int|
                            0 <= v < g.vertices@.len() && visitado@[v] && #[trigger] g.vertices@[v].id@
                                == p[p.len() - 1];
                        assert(g.vertices@[v].id@ != destino@);
                    }
                }
                return None;
            },
        };
        let ghost paso_ant = paso;
        let ghost dist_ant = dist@;
        let ghost vis_ant = visitado@;
        proof {
            if paso == 0 {
                assert(m == s);
            }
            lemma_visitar(*g, dist@, pred@, visitado@, rango, s as int, m as int, paso);
        }
        visitado.set(m, true);
        proof {
            rango = rango.update(m as int, paso);
            vistos = vistos.insert(m as int);
            paso = paso + 1;
            assert(visitado@ == vis_ant.update(m as int, true));
            lemma_cuantos(vistos, n as int);
        }
        if g.vertices[m].id == destino_s {
            let r = ruta(g, &dist, &pred, m, Ghost(s as int), Ghost(visitado@), Ghost(rango));
            proof {
                lemma_recorrido_conecta(g.aristas@, r.verts@, origen@, destino@);
                if distancias_caben(*g) {
                    assert forall|p: Seq<Seq<char>>, ws: Seq<u64>|
                        #[trigger] es_camino_pesado(g.aristas@, p, ws) && p[0] == origen@ && p.last()
                            == destino@ implies distancia_total(r.verts@) <= suma(ws) by {
                        lemma_suma_no_negativa(ws);
                        if paso_ant > 0 {
                            lemma_frontera(*g, dist_ant, vis_ant, s as int, m as int, p, ws, p.len() - 1);
                            assert(ws.subrange(0, p.len() - 1) == ws);
                            if exists|v: int|
                                0 <= v < g.vertices@.len() && vis_ant[v] && #[trigger] g.vertices@[v].id@
                                    == p[p.len() - 1] && dist_ant[v]->0 <= suma(ws) {
                                let v = choose|v: int|
                                    0 <= v < g.vertices@.len() && vis_ant[v] && #[trigger] g.vertices@[v].id@
                                        == p[p.len() - 1] && dist_ant[v]->0 <= suma(ws);
                                assert(v == m);
                            }
                        }
                    }
                }
                if origen@ == destino@ && paso_ant > 0 {
                    assert(vis_ant[s as int]);
                }
            }
            return Some(r);
        }
        proof {
            if distancias_caben(*g) {
                let wm = peso_max(g.aristas@);
                assert(paso <= n);
                assert(dist@[m as int]->0 <= (paso - 1) * wm);
            }
        }
        relajar(g, m, &mut dist, &mut pred, &visitado, Ghost(s as int), Ghost(rango), Ghost(paso));
        proof {
            if distancias_caben(*g) {
                let wm = peso_max(g.aristas@);
                assert(paso_ant * wm <= paso * wm) by (nonlinear_arith)
                    requires paso_ant <= paso;
            }
            assert forall|v: int, w: int|
                0 <= v < n && 0 <= w < n && #[trigger] visitado@[v] && !visitado@[w] && (
                #[trigger] dist@[w]) is Some implies dist@[v]->0 <= dist@[w]->0 by {
                assert(dist@[v] == dist_ant[v]);
                if dist@[w] == dist_ant[w] {
                    if v != m {
                        assert(vis_ant[v] && !vis_ant[w]);
                    }
                } else {
                    if v != m {
                        assert(vis_ant[v] && !vis_ant[m as int]);
                    }
                }
            }
            if origen@ == destino@ {
                assert(visitado@[s as int]);
            }
        }
    }
}

} // verus!
