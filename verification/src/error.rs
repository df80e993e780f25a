//! The registry's error type.
use vstd::prelude::*;
use crate::text::concat_str;

verus! {

broadcast use vstd::string::group_string_axioms;

/// Errors of registry operations.
#[derive(Debug, Clone, PartialEq, Eq)]
pub enum RegistryError {
    /// The registry could not be reached.
    Connection(String),
    /// No instance of the named service is available.
    ServiceNotFound(String),
    /// The named instance does not exist.
    InstanceNotFound(String),
    /// An operation ran out of time.
    Timeout(String),
    /// Encoding or decoding failed.
    Serialization(String),
    /// The registry driver failed.
    Driver(String),
    /// The configuration is wrong.
    Config(String),
    /// Anything else.
    Other(String),
}

pub type RegistryResult<T> = Result<T, RegistryError>;

impl RegistryError {
    pub fn driver(msg: &str) -> (r: Self)
        ensures
            r matches RegistryError::Driver(m) && m@ == msg@,
    {
        RegistryError::Driver(msg.to_string())
    }

    pub fn connection(msg: &str) -> (r: Self)
        ensures
            r matches RegistryError::Connection(m) && m@ == msg@,
    {
        RegistryError::Connection(msg.to_string())
    }

    pub fn timeout(msg: &str) -> (r: Self)
        ensures
            r matches RegistryError::Timeout(m) && m@ == msg@,
    {
        RegistryError::Timeout(msg.to_string())
    }

    pub fn config(msg: &str) -> (r: Self)
        ensures
            r matches RegistryError::Config(m) && m@ == msg@,
    {
        RegistryError::Config(msg.to_string())
    }

    pub fn other(msg: &str) -> (r: Self)
        ensures
            r matches RegistryError::Other(m) && m@ == msg@,
    {
        RegistryError::Other(msg.to_string())
    }

    /// The human-readable message of the error.
    pub fn to_string(&self) -> (r: String)
        ensures
            r@ == match self {
                RegistryError::Connection(m) => "连接注册中心失败: "@ + m@,
                RegistryError::ServiceNotFound(m) => "未找到微服务 '"@ + m@ + "' 的可用实例"@,
                RegistryError::InstanceNotFound(m) => "未找到指定的实例: "@ + m@,
                RegistryError::Timeout(m) => "操作超时: "@ + m@,
                RegistryError::Serialization(m) => "数据序列化/反序列化错误: "@ + m@,
                RegistryError::Driver(m) => "注册中心驱动底层错误: "@ + m@,
                RegistryError::Config(m) => "配置错误: "@ + m@,
                RegistryError::Other(m) => "未知/内部错误: "@ + m@,
            },
    {
        match self {
            RegistryError::Connection(m) => concat_str("连接注册中心失败: ", m.as_str()),
            RegistryError::ServiceNotFound(m) => {
                let a = concat_str("未找到微服务 '", m.as_str());
                concat_str(a.as_str(), "' 的可用实例")
            },
            RegistryError::InstanceNotFound(m) => concat_str("未找到指定的实例: ", m.as_str()),
            RegistryError::Timeout(m) => concat_str("操作超时: ", m.as_str()),
            RegistryError::Serialization(m) => concat_str("数据序列化/反序列化错误: ", m.as_str()),
            RegistryError::Driver(m) => concat_str("注册中心驱动底层错误: ", m.as_str()),
            RegistryError::Config(m) => concat_str("配置错误: ", m.as_str()),
            RegistryError::Other(m) => concat_str("未知/内部错误: ", m.as_str()),
        }
    }
}

} // verus!
