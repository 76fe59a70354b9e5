//! The cache: values, compression, the size-bounded LRU store and the local
//! side of a cache group.
pub mod cache;
pub mod compression;
pub mod group;
pub mod memory_pool;
pub mod value;

pub use self::cache::{Cache, CacheStats};
pub use self::compression::{compress, decompress, should_compress};
pub use self::group::Group;
pub use self::memory_pool::MemoryPool;
pub use self::value::Value;
