pub mod api;
pub mod assets;
pub mod cli;
pub mod content_edit;
pub mod content_scan;
pub mod csrf;
pub mod deps;
pub mod entities;
pub mod errors;
pub mod links;
pub mod mass_asset_import;
pub mod publish;
pub mod render;
pub mod scanner;
pub mod session;
pub mod shortcodes;
pub mod site;
pub mod site_export;
pub mod strings;
pub mod tags;
pub mod templates;
pub mod wordpress;
