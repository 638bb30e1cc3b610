use ruta_corta::{ruta_mas_corta, Grafo, Ruta, Vertice};

fn grafo_de_referencia() -> Grafo {
    Grafo::new(vec![
        (4, "A", "B"),
        (3, "A", "C"),
        (8, "B", "E"),
        (12, "C", "D"),
        (4, "C", "F"),
        (20, "D", "G"),
        (15, "D", "H"),
        (17, "E", "G"),
        (22, "F", "H"),
        (9, "G", "H"),
    ])
}

fn ids(r: &Ruta) -> Vec<String> {
    r.verts.iter().map(|v| v.id.clone()).collect()
}

/// Lightest edge between two names, read from the graph's edge list.
fn peso_entre(g: &Grafo, a: &str, b: &str) -> u64 {
    g.aristas
        .iter()
        .filter(|e| (e.lazo.0 == a && e.lazo.1 == b) || (e.lazo.0 == b && e.lazo.1 == a))
        .map(|e| e.distancia)
        .min()
        .expect("consecutive route vertices share an edge")
}

#[test]
fn referencia_de_a_a_h() {
    let g = grafo_de_referencia();
    let r = ruta_mas_corta("A", "H", &g).unwrap();
    assert_eq!(ids(&r), vec!["A", "C", "F", "H"]);
    assert_eq!(r.get_distancia(), 29);
    assert_eq!(r.to_string(), "[ A C F H ]");
}

#[test]
fn referencia_de_a_a_g() {
    let g = grafo_de_referencia();
    let r = ruta_mas_corta("A", "G", &g).unwrap();
    assert_eq!(ids(&r), vec!["A", "B", "E", "G"]);
    assert_eq!(r.get_distancia(), 29);
}

#[test]
fn referencia_en_sentido_contrario() {
    let g = grafo_de_referencia();
    let r = ruta_mas_corta("H", "A", &g).unwrap();
    assert_eq!(ids(&r), vec!["H", "F", "C", "A"]);
    assert_eq!(r.get_distancia(), 29);
}

#[test]
fn mismo_origen_y_destino() {
    let g = grafo_de_referencia();
    for x in ["A", "B", "C", "D", "E", "F", "G", "H"] {
        let r = ruta_mas_corta(x, x, &g).unwrap();
        assert_eq!(ids(&r), vec![x]);
        assert_eq!(r.get_distancia(), 0);
        assert_eq!(r.verts[0].distancia, (None, Some(0)));
    }
}

#[test]
fn destino_desconectado() {
    let g = Grafo::new(vec![(1, "A", "B"), (2, "B", "C"), (5, "X", "Y")]);
    assert!(ruta_mas_corta("A", "Y", &g).is_none());
    assert!(ruta_mas_corta("X", "C", &g).is_none());
    assert!(ruta_mas_corta("A", "Z", &g).is_none());
    assert_eq!(ruta_mas_corta("X", "Y", &g).unwrap().get_distancia(), 5);
}

#[test]
fn origen_inexistente() {
    let g = grafo_de_referencia();
    let antes = g.clone();
    assert!(ruta_mas_corta("nonexistent", "A", &g).is_none());
    assert!(ruta_mas_corta("nonexistent", "nonexistent", &g).is_none());
    assert_eq!(g, antes);
}

#[test]
fn grafo_vacio() {
    let g = Grafo::new(vec![]);
    assert!(g.vertices.is_empty());
    assert!(g.aristas.is_empty());
    assert!(ruta_mas_corta("A", "A", &g).is_none());
    assert_eq!(g.to_string(), "Aristas: ");
}

#[test]
fn consulta_repetida_da_la_misma_ruta() {
    let g = grafo_de_referencia();
    let antes = g.clone();
    let r1 = ruta_mas_corta("A", "H", &g).unwrap();
    let r2 = ruta_mas_corta("A", "H", &g).unwrap();
    assert_eq!(r1, r2);
    assert_eq!(ids(&r1), ids(&r2));
    assert_eq!(g, antes);
}

#[test]
fn distancia_total_es_suma_de_pesos() {
    let g = grafo_de_referencia();
    for (o, d) in [("A", "H"), ("A", "G"), ("B", "F"), ("E", "D"), ("H", "A")] {
        let r = ruta_mas_corta(o, d, &g).unwrap();
        let ids = ids(&r);
        let suma: u64 = ids.windows(2).map(|p| peso_entre(&g, &p[0], &p[1])).sum();
        assert_eq!(r.get_distancia(), suma);
        assert_eq!(ids.first().unwrap(), o);
        assert_eq!(ids.last().unwrap(), d);
    }
}

#[test]
fn cada_vertice_nombra_a_su_predecesor() {
    let g = grafo_de_referencia();
    let r = ruta_mas_corta("A", "H", &g).unwrap();
    assert_eq!(r.verts[0].distancia, (None, Some(0)));
    assert_eq!(r.verts[1].distancia, (Some("A".to_string()), Some(3)));
    assert_eq!(r.verts[2].distancia, (Some("C".to_string()), Some(7)));
    assert_eq!(r.verts[3].distancia, (Some("F".to_string()), Some(29)));
}

#[test]
fn aristas_paralelas_usan_la_mas_ligera() {
    let g = Grafo::new(vec![(10, "A", "B"), (3, "B", "A"), (7, "A", "B")]);
    let r = ruta_mas_corta("A", "B", &g).unwrap();
    assert_eq!(ids(&r), vec!["A", "B"]);
    assert_eq!(r.get_distancia(), 3);
}

#[test]
fn pesos_cero() {
    let g = Grafo::new(vec![(0, "A", "B"), (0, "B", "C"), (1, "A", "C")]);
    let r = ruta_mas_corta("A", "C", &g).unwrap();
    assert_eq!(ids(&r), vec!["A", "B", "C"]);
    assert_eq!(r.get_distancia(), 0);
}

#[test]
fn pesos_grandes() {
    let g = Grafo::new(vec![(u64::MAX / 2, "A", "B"), (u64::MAX / 2, "B", "C")]);
    let r = ruta_mas_corta("A", "C", &g).unwrap();
    assert_eq!(ids(&r), vec!["A", "B", "C"]);
    assert_eq!(r.get_distancia(), u64::MAX - 1);
}

#[test]
fn camino_largo_gana_a_arista_directa_pesada() {
    let g = Grafo::new(vec![(100, "A", "E"), (1, "A", "B"), (1, "B", "C"), (1, "C", "D"), (1, "D", "E")]);
    let r = ruta_mas_corta("A", "E", &g).unwrap();
    assert_eq!(ids(&r), vec!["A", "B", "C", "D", "E"]);
    assert_eq!(r.get_distancia(), 4);
}
