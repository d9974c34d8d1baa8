pub mod text;
pub mod isin;
pub mod tar;
pub mod assoc;
pub mod access_control;
pub mod fly_backup;
pub mod assets;
pub mod decimal;
pub mod civil;
pub mod transactions;
pub mod portfolio;
pub mod ledger;
pub mod catalog;
pub mod records;
pub mod web;
pub mod categories;
pub mod display;
pub mod desktop;
pub mod lock;
pub mod schema;
