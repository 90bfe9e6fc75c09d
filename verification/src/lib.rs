pub mod counter;
pub mod css;
pub mod cssom;
pub mod html;
pub mod nav;
pub mod runtime;
pub mod sync;
pub mod text;
