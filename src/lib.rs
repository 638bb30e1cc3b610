pub mod dijkstra;
pub mod grafo;
pub mod ruta;
pub mod texto;

pub use dijkstra::ruta_mas_corta;
pub use grafo::{Arista, Grafo, Vertice};
pub use ruta::Ruta;
