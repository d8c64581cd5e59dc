//! Size measures of well-known large ontologies.

use vstd::prelude::*;
use super::GandalfComplete;

verus! {
pub struct Wikipedia;

pub struct Linux;

pub struct GCC;

pub struct OpenStreetMap;

impl GandalfComplete for Wikipedia {
    open spec fn spec_dimensions(&self) -> u64 {
        300
    }

    open spec fn spec_symmetries(&self) -> u64 {
        50
    }

    open spec fn spec_encodings(&self) -> u64 {
        100
    }

    /// 2^50
    open spec fn spec_states(&self) -> u64 {
        1_125_899_906_842_624
    }

    open spec fn spec_representation_dimension(&self) -> u64 {
        200_000
    }

    fn count_dimensions(&self) -> (r: u64) {
        300
    }

    fn count_symmetries(&self) -> (r: u64) {
        50
    }

    fn count_encodings(&self) -> (r: u64) {
        100
    }

    fn count_states(&self) -> (r: u64) {
        1_125_899_906_842_624
    }

    fn representation_dimension(&self) -> (r: u64) {
        200_000
    }
}

impl GandalfComplete for Linux {
    open spec fn spec_dimensions(&self) -> u64 {
        300
    }

    open spec fn spec_symmetries(&self) -> u64 {
        40
    }

    open spec fn spec_encodings(&self) -> u64 {
        100
    }

    /// 2^48
    open spec fn spec_states(&self) -> u64 {
        281_474_976_710_656
    }

    open spec fn spec_representation_dimension(&self) -> u64 {
        180_000
    }

    fn count_dimensions(&self) -> (r: u64) {
        300
    }

    fn count_symmetries(&self) -> (r: u64) {
        40
    }

    fn count_encodings(&self) -> (r: u64) {
        100
    }

    fn count_states(&self) -> (r: u64) {
        281_474_976_710_656
    }

    fn representation_dimension(&self) -> (r: u64) {
        180_000
    }
}

impl GandalfComplete for GCC {
    open spec fn spec_dimensions(&self) -> u64 {
        200
    }

    open spec fn spec_symmetries(&self) -> u64 {
        38
    }

    open spec fn spec_encodings(&self) -> u64 {
        80
    }

    /// 2^46
    open spec fn spec_states(&self) -> u64 {
        70_368_744_177_664
    }

    open spec fn spec_representation_dimension(&self) -> u64 {
        150_000
    }

    fn count_dimensions(&self) -> (r: u64) {
        200
    }

    fn count_symmetries(&self) -> (r: u64) {
        38
    }

    fn count_encodings(&self) -> (r: u64) {
        80
    }

    fn count_states(&self) -> (r: u64) {
        70_368_744_177_664
    }

    fn representation_dimension(&self) -> (r: u64) {
        150_000
    }
}

impl GandalfComplete for OpenStreetMap {
    open spec fn spec_dimensions(&self) -> u64 {
        150
    }

    open spec fn spec_symmetries(&self) -> u64 {
        45
    }

    open spec fn spec_encodings(&self) -> u64 {
        90
    }

    /// 2^47
    open spec fn spec_states(&self) -> u64 {
        140_737_488_355_328
    }

    open spec fn spec_representation_dimension(&self) -> u64 {
        170_000
    }

    fn count_dimensions(&self) -> (r: u64) {
        150
    }

    fn count_symmetries(&self) -> (r: u64) {
        45
    }

    fn count_encodings(&self) -> (r: u64) {
        90
    }

    fn count_states(&self) -> (r: u64) {
        140_737_488_355_328
    }

    fn representation_dimension(&self) -> (r: u64) {
        170_000
    }
}

} // verus!
