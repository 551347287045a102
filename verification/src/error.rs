//! Errors of the kernel.
use vstd::prelude::*;
use vstd::std_specs::convert::FromSpecImpl;
use crate::paging::{MappingError, TranslationError, UnmappingError};

verus! {

/// Why memory could not be handed out.
#[derive(Debug, PartialEq, Eq, Structural)]
pub enum MemoryError {
    OutOfPhysicalMemory,
    OutOfVirtualMemory,
    InvalidSize,
    InvalidRange,
    InvalidRegion,
    Other,
}

/// Any error of the kernel.
#[derive(Debug)]
pub enum KernelError {
    MemoryError(MemoryError),
    PagingMappingError(MappingError),
    PagingTranslationError(TranslationError),
    PagingUnmappingError(UnmappingError),
    Other,
}

impl From<MemoryError> for KernelError {
    fn from(error: MemoryError) -> (r: Self) {
        KernelError::MemoryError(error)
    }
}

impl FromSpecImpl<MemoryError> for KernelError {
    open spec fn obeys_from_spec() -> bool {
        true
    }

    open spec fn from_spec(error: MemoryError) -> Self {
        KernelError::MemoryError(error)
    }
}

impl From<MappingError> for KernelError {
    fn from(error: MappingError) -> (r: Self) {
        KernelError::PagingMappingError(error)
    }
}

impl FromSpecImpl<MappingError> for KernelError {
    open spec fn obeys_from_spec() -> bool {
        true
    }

    open spec fn from_spec(error: MappingError) -> Self {
        KernelError::PagingMappingError(error)
    }
}

impl From<UnmappingError> for KernelError {
    fn from(error: UnmappingError) -> (r: Self) {
        KernelError::PagingUnmappingError(error)
    }
}

impl FromSpecImpl<UnmappingError> for KernelError {
    open spec fn obeys_from_spec() -> bool {
        true
    }

    open spec fn from_spec(error: UnmappingError) -> Self {
        KernelError::PagingUnmappingError(error)
    }
}

impl From<TranslationError> for KernelError {
    fn from(error: TranslationError) -> (r: Self) {
        KernelError::PagingTranslationError(error)
    }
}

impl FromSpecImpl<TranslationError> for KernelError {
    open spec fn obeys_from_spec() -> bool {
        true
    }

    open spec fn from_spec(error: TranslationError) -> Self {
        KernelError::PagingTranslationError(error)
    }
}

} // verus!
