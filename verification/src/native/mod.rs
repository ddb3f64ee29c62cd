pub mod npm_registry;
