pub mod apimachinery;
pub mod apiserver;
pub mod decimal;
pub mod ipv4;
pub mod json;
pub mod merge;
pub mod outside;
pub mod pointer;
pub mod numeric;
pub mod sorted;
pub mod text;
