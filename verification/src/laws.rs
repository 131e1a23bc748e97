//! Laws of the library in plain words: what its operations do with inputs that
//! are put together from parts.
pub mod choices;
pub mod contexts;
pub mod conversations;
pub mod declarations;
pub mod histories;
pub mod imports;
pub mod limits;
pub mod listings;
pub mod locations;
pub mod memories;
pub mod menus;
pub mod numerals;
pub mod pages;
pub mod plain;
pub mod previews;
pub mod requests;
pub mod searches;
pub mod segments;
pub mod settings;
pub mod streams;
pub mod styles;
pub mod summaries;
pub mod texts;
pub mod tiers;
