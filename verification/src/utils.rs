pub mod copyhashmap;
