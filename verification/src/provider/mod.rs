//! Registry providers: what each backend keeps and computes.
pub mod etcd;
pub mod local;
pub mod nacos;

pub use local::LocalRegistry;
pub use nacos::{NacosConfig, NacosRegistrationConfig, NacosRegistry};
