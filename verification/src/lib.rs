pub mod book;
pub mod bookdef;
pub mod casecheck;
pub mod chapter;
pub mod engines;
pub mod epubcheck;
pub mod escape;
pub mod image;
pub mod implies;
pub mod lang;
pub mod media;
pub mod overrides;
pub mod package;
pub mod rules;
pub mod sed;
pub mod settings;
pub mod strutil;
pub mod style;
pub mod urlsel;
pub mod walk;
pub mod xmlsink;
