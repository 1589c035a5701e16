//! Labelling rules for pull requests: which labels a change earns from the
//! stdenv outputs it rebuilds, the packages it adds or removes, the number of
//! rebuilds per platform, and whether its author maintains what it touches.

pub mod labels;
pub mod maintainers;
pub mod outpathdiff;
pub mod tagger;
pub mod tasks;
