//! Access to the services of the University of Milan: the page analysis,
//! the request planning and the configuration model behind the `sebastian`
//! command line tool.

pub mod text;
pub mod links;
pub mod pattern;
pub mod html;
pub mod ariel;
pub mod time;
pub mod ugov;
pub mod unimia;
pub mod cli;
