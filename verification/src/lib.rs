//! Congal: modelo de datos e lóxica de extracción, normalización e agregación
//! dos contratos públicos de contratosdegalicia.gal, con contratos probados.

pub mod text;
pub mod model;
pub mod consulta;
pub mod importe;
pub mod datas;
pub mod organismo;
pub mod sync;
pub mod search;
pub mod enrich;
pub mod worker;
pub mod orde;
pub mod relacions;
pub mod vista;
pub mod scraper;
