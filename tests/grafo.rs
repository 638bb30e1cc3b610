use ruta_corta::texto::decimal;
use ruta_corta::{Arista, Grafo, Ruta, Vertice};

#[test]
fn vertices_derivados_de_los_extremos() {
    let g = Grafo::new(vec![(1, "A", "B"), (2, "B", "C"), (3, "C", "A"), (4, "D", "D")]);
    let mut nombres: Vec<String> = g.vertices.iter().map(|v| v.id.clone()).collect();
    nombres.sort();
    assert_eq!(nombres, vec!["A", "B", "C", "D"]);
    for v in &g.vertices {
        assert_eq!(v.distancia, (None, None));
    }
    assert_eq!(g.aristas.len(), 4);
    assert_eq!(
        g.aristas[1],
        Arista { lazo: ("B".to_string(), "C".to_string()), distancia: 2 }
    );
}

#[test]
fn vecinos_en_ambos_sentidos() {
    let g = Grafo::new(vec![(4, "A", "B"), (3, "C", "A"), (8, "B", "E")]);
    assert_eq!(
        g.buscar_vecinos("A"),
        vec![(4, "B".to_string()), (3, "C".to_string())]
    );
    assert_eq!(g.buscar_vecinos("B"), vec![(4, "A".to_string()), (8, "E".to_string())]);
    assert_eq!(g.buscar_vecinos("C"), vec![(3, "A".to_string())]);
    assert_eq!(g.buscar_vecinos("E"), vec![(8, "B".to_string())]);
    assert!(g.buscar_vecinos("Z").is_empty());
}

#[test]
fn vecino_de_un_lazo() {
    let g = Grafo::new(vec![(5, "A", "A")]);
    assert_eq!(g.buscar_vecinos("A"), vec![(5, "A".to_string())]);
}

#[test]
fn buscar_id_mut_cambia_el_vertice() {
    let mut g = Grafo::new(vec![(4, "A", "B")]);
    {
        let v = g.buscar_id_mut("B").unwrap();
        assert_eq!(v.id, "B");
        v.distancia = (Some("A".to_string()), Some(4));
    }
    let b = g.vertices.iter().find(|v| v.id == "B").unwrap();
    assert_eq!(b.distancia, (Some("A".to_string()), Some(4)));
    let a = g.vertices.iter().find(|v| v.id == "A").unwrap();
    assert_eq!(a.distancia, (None, None));
    assert!(g.buscar_id_mut("Z").is_none());
}

#[test]
fn indice_por_nombre() {
    let g = Grafo::new(vec![(4, "A", "B")]);
    let i = g.indice("B").unwrap();
    assert_eq!(g.vertices[i].id, "B");
    assert!(g.indice("C").is_none());
}

#[test]
fn texto_del_grafo() {
    let g = Grafo::new(vec![(4, "A", "B"), (120, "C", "A")]);
    assert_eq!(g.to_string(), "Aristas: \n\tA, B : 4\n\tC, A : 120");
}

#[test]
fn texto_decimal() {
    assert_eq!(decimal(0), "0");
    assert_eq!(decimal(7), "7");
    assert_eq!(decimal(10), "10");
    assert_eq!(decimal(29), "29");
    assert_eq!(decimal(u64::MAX), u64::MAX.to_string());
}

#[test]
fn vertice_nuevo() {
    let v = Vertice::new("X");
    assert_eq!(v.id, "X");
    assert_eq!(v.distancia, (None, None));
}

#[test]
fn orden_de_vertices() {
    let mut a = Vertice::new("A");
    let mut b = Vertice::new("B");
    assert!(!a.es_menor(&b));
    a.distancia.1 = Some(5);
    assert!(a.es_menor(&b));
    assert!(!b.es_menor(&a));
    b.distancia.1 = Some(5);
    assert!(!a.es_menor(&b));
    b.distancia.1 = Some(6);
    assert!(a.es_menor(&b));
    assert!(!b.es_menor(&a));
}

#[test]
fn distancia_de_ruta() {
    assert_eq!(Ruta::new(vec![]).get_distancia(), 0);
    assert_eq!(Ruta::new(vec![]).to_string(), "[ ]");
    let mut a = Vertice::new("A");
    a.distancia = (None, Some(0));
    let mut b = Vertice::new("B");
    b.distancia = (Some("A".to_string()), Some(12));
    let r = Ruta::new(vec![a.clone(), b.clone()]);
    assert_eq!(r.get_distancia(), 12);
    assert_eq!(r.to_string(), "[ A B ]");
    assert_eq!(r.verts, vec![a, b]);
    let sin_distancia = Ruta::new(vec![Vertice::new("Z")]);
    assert_eq!(sin_distancia.get_distancia(), 0);
}
