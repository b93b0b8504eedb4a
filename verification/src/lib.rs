//! Core of a declarative GraphQL gateway: the resolver algebra with its
//! rewrites and its evaluator, request templates and dynamic values, the
//! result cache, the tables that collapse and batch upstream calls, the
//! binding to the GraphQL runtime, and the generators that make a
//! configuration from OpenAPI documents and protocol buffer descriptors.

pub mod auth;
pub mod blueprint;
pub mod cache;
pub mod casing;
pub mod config;
pub mod config_module;
pub mod context;
pub mod dedupe;
pub mod depends;
pub mod discriminator;
pub mod entries;
pub mod eval;
pub mod expander;
pub mod from_openapi;
pub mod from_proto;
pub mod graphql_type;
pub mod infer_field_name;
pub mod into_schema;
pub mod ir;
pub mod json;
pub mod loader;
pub mod names;
pub mod openapi;
pub mod pattern;
pub mod post;
pub mod proto;
pub mod request;
pub mod server;
pub mod template;
pub mod text;
pub mod unused;
