//! The app-entry bookkeeping of a Next.js production build: which entries an
//! app directory yields, which chunks they need, and what the build manifests
//! record of them.
pub mod app_entries;
pub mod css_client_reference;
pub mod manifest;
