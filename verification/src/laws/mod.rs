//! What holds of the library's operations, stated over what goes in and what comes out.

pub mod answers;
pub mod caches;
pub mod calls;
pub mod changes;
pub mod configs;
pub mod decisions;
pub mod definitions;
pub mod ends;
pub mod engines;
pub mod flows;
pub mod graphs;
pub mod histories;
pub mod imports;
pub mod indexing;
pub mod launches;
pub mod layouts;
pub mod lists;
pub mod manifests;
pub mod mentions;
pub mod merges;
pub mod paths;
pub mod ranked;
pub mod rankings;
pub mod repos;
pub mod searches;
pub mod selections;
pub mod servers;
pub mod stored;
pub mod summaries;
pub mod texts;
pub mod tools;
pub mod upkeep;
pub mod usages;
pub mod validated;
