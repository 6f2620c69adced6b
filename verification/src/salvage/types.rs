//! Data model of the salvage planner.
use vstd::prelude::*;

verus! {

/// Why a block candidate or a file plan failed (or passed) verification.
/// The order of the variants is the order in which reasons are reported.
#[derive(Clone, Copy, Debug, PartialEq, Eq, Structural)]
pub enum ReasonCode {
    HeaderInvalid,
    HeaderOutOfBounds,
    HeaderPrefixOutOfBounds,
    PayloadOutOfBounds,
    PayloadHashMismatch,
    DictionaryDependencyUnsatisfied,
    DecompressionNotSuccessful,
    RawHashMismatch,
    AllRequiredChecksPassed,
    NoRequiredBlocks,
    RequiredBlockUnmapped,
    RequiredBlockNotContentVerified,
    RequiredExtentOutOfBounds,
    ManifestWithoutRecoverableExtents,
    ManifestExpectedBlocksMissing,
    ManifestDigestNotVerified,
}

impl ReasonCode {
    /// The stable label of the reason, as text.
    pub open spec fn label(&self) -> Seq<char> {
        match self {
            ReasonCode::HeaderInvalid => "header_invalid"@,
            ReasonCode::HeaderOutOfBounds => "header_out_of_bounds"@,
            ReasonCode::HeaderPrefixOutOfBounds => "header_prefix_out_of_bounds"@,
            ReasonCode::PayloadOutOfBounds => "payload_out_of_bounds"@,
            ReasonCode::PayloadHashMismatch => "payload_hash_mismatch"@,
            ReasonCode::DictionaryDependencyUnsatisfied => "dictionary_dependency_unsatisfied"@,
            ReasonCode::DecompressionNotSuccessful => "decompression_not_successful"@,
            ReasonCode::RawHashMismatch => "raw_hash_mismatch"@,
            ReasonCode::AllRequiredChecksPassed => "all_required_checks_passed"@,
            ReasonCode::NoRequiredBlocks => "no_required_blocks"@,
            ReasonCode::RequiredBlockUnmapped => "required_block_unmapped"@,
            ReasonCode::RequiredBlockNotContentVerified => "required_block_not_content_verified"@,
            ReasonCode::RequiredExtentOutOfBounds => "required_extent_out_of_bounds"@,
            ReasonCode::ManifestWithoutRecoverableExtents => "manifest_without_recoverable_extents"@,
            ReasonCode::ManifestExpectedBlocksMissing => "manifest_expected_blocks_missing"@,
            ReasonCode::ManifestDigestNotVerified => "manifest_digest_not_verified"@,
        }
    }

    /// The stable label of the reason.
    pub fn as_str(&self) -> (r: &'static str)
        ensures
            r@ == self.label(),
    {
        match self {
            ReasonCode::HeaderInvalid => "header_invalid",
            ReasonCode::HeaderOutOfBounds => "header_out_of_bounds",
            ReasonCode::HeaderPrefixOutOfBounds => "header_prefix_out_of_bounds",
            ReasonCode::PayloadOutOfBounds => "payload_out_of_bounds",
            ReasonCode::PayloadHashMismatch => "payload_hash_mismatch",
            ReasonCode::DictionaryDependencyUnsatisfied => "dictionary_dependency_unsatisfied",
            ReasonCode::DecompressionNotSuccessful => "decompression_not_successful",
            ReasonCode::RawHashMismatch => "raw_hash_mismatch",
            ReasonCode::AllRequiredChecksPassed => "all_required_checks_passed",
            ReasonCode::NoRequiredBlocks => "no_required_blocks",
            ReasonCode::RequiredBlockUnmapped => "required_block_unmapped",
            ReasonCode::RequiredBlockNotContentVerified => "required_block_not_content_verified",
            ReasonCode::RequiredExtentOutOfBounds => "required_extent_out_of_bounds",
            ReasonCode::ManifestWithoutRecoverableExtents => "manifest_without_recoverable_extents",
            ReasonCode::ManifestExpectedBlocksMissing => "manifest_expected_blocks_missing",
            ReasonCode::ManifestDigestNotVerified => "manifest_digest_not_verified",
        }
    }
}

/// A run of a file's bytes held by one block: `len` bytes at `offset` of the
/// file, which are the bytes at `offset` of the block's raw content.
#[derive(Clone, Copy, Debug, PartialEq, Eq, Structural)]
pub struct Extent {
    pub block_id: u32,
    pub offset: u64,
    pub len: u64,
}

/// What the scan established about one indexed block.
#[derive(Clone, Copy, Debug, PartialEq, Eq, Structural)]
pub struct BlockVerification {
    pub content_verified: bool,
    pub verified_raw_len: Option<u64>,
}

/// A file as a metadata source maps it: path, size and extents.
pub struct RedundantMapFile {
    pub path: String,
    pub size: u64,
    pub extents: Vec<Extent>,
}

/// Whether a planned file can be salvaged.
#[derive(Clone, Copy, Debug, PartialEq, Eq, Structural)]
pub enum PlanStatus {
    Salvageable,
    Unsalvageable,
    Unmappable,
}

impl PlanStatus {
    /// The stable label of the status, as text.
    pub open spec fn label(&self) -> Seq<char> {
        match self {
            PlanStatus::Salvageable => "SALVAGEABLE"@,
            PlanStatus::Unsalvageable => "UNSALVAGEABLE"@,
            PlanStatus::Unmappable => "UNMAPPABLE"@,
        }
    }

    /// The stable label of the status.
    pub fn as_str(&self) -> (r: &'static str)
        ensures
            r@ == self.label(),
    {
        match self {
            PlanStatus::Salvageable => "SALVAGEABLE",
            PlanStatus::Unsalvageable => "UNSALVAGEABLE",
            PlanStatus::Unmappable => "UNMAPPABLE",
        }
    }
}

/// The reason recorded with a plan's status.
#[derive(Clone, Copy, Debug, PartialEq, Eq, Structural)]
pub enum PlanReason {
    AllRequiredDependenciesVerified,
    Code(ReasonCode),
    ManifestHasNoRecoverableExtents,
    ManifestExpectedBlocksMissing,
}

impl PlanReason {
    /// The stable label of the reason, as text.
    pub open spec fn label(&self) -> Seq<char> {
        match self {
            PlanReason::AllRequiredDependenciesVerified => "all_required_dependencies_verified"@,
            PlanReason::Code(c) => c.label(),
            PlanReason::ManifestHasNoRecoverableExtents => "manifest has no recoverable block identity extents"@,
            PlanReason::ManifestExpectedBlocksMissing => "manifest expected blocks missing from recovered set"@,
        }
    }

    /// The stable label of the reason.
    pub fn as_str(&self) -> (r: &'static str)
        ensures
            r@ == self.label(),
    {
        match self {
            PlanReason::AllRequiredDependenciesVerified => "all_required_dependencies_verified",
            PlanReason::Code(c) => c.as_str(),
            PlanReason::ManifestHasNoRecoverableExtents => "manifest has no recoverable block identity extents",
            PlanReason::ManifestExpectedBlocksMissing => "manifest expected blocks missing from recovered set",
        }
    }
}

/// How completely a planned file can be recovered.
#[derive(Clone, Copy, Debug, PartialEq, Eq, Structural)]
pub enum RecoveryClassification {
    FullVerified,
    FullAnonymous,
    PartialOrdered,
    PartialUnordered,
    OrphanBlocks,
}

impl RecoveryClassification {
    /// The stable label of the classification, as text.
    pub open spec fn label(&self) -> Seq<char> {
        match self {
            RecoveryClassification::FullVerified => "FULL_VERIFIED"@,
            RecoveryClassification::FullAnonymous => "FULL_ANONYMOUS"@,
            RecoveryClassification::PartialOrdered => "PARTIAL_ORDERED"@,
            RecoveryClassification::PartialUnordered => "PARTIAL_UNORDERED"@,
            RecoveryClassification::OrphanBlocks => "ORPHAN_BLOCKS"@,
        }
    }

    /// The stable label of the classification.
    pub fn as_str(&self) -> (r: &'static str)
        ensures
            r@ == self.label(),
    {
        match self {
            RecoveryClassification::FullVerified => "FULL_VERIFIED",
            RecoveryClassification::FullAnonymous => "FULL_ANONYMOUS",
            RecoveryClassification::PartialOrdered => "PARTIAL_ORDERED",
            RecoveryClassification::PartialUnordered => "PARTIAL_UNORDERED",
            RecoveryClassification::OrphanBlocks => "ORPHAN_BLOCKS",
        }
    }
}

/// Which metadata source a file plan was derived from.
#[derive(Clone, Copy, Debug, PartialEq, Eq, Structural)]
pub enum MappingProvenance {
    RedundantVerifiedMap,
    SelfDescribingExtent,
    CheckpointMapSnapshot,
    PayloadBlockIdentity,
    PayloadBlockIdentityAnonymous,
    FileIdentityExtent,
    FileIdentityExtentAnonymous,
    FileManifest,
}

impl MappingProvenance {
    /// The stable label of the provenance, as text.
    pub open spec fn label(&self) -> Seq<char> {
        match self {
            MappingProvenance::RedundantVerifiedMap => "REDUNDANT_VERIFIED_MAP_PATH"@,
            MappingProvenance::SelfDescribingExtent => "SELF_DESCRIBING_EXTENT_PATH"@,
            MappingProvenance::CheckpointMapSnapshot => "CHECKPOINT_MAP_PATH"@,
            MappingProvenance::PayloadBlockIdentity => "PAYLOAD_BLOCK_IDENTITY_PATH"@,
            MappingProvenance::PayloadBlockIdentityAnonymous => "PAYLOAD_BLOCK_IDENTITY_PATH_ANONYMOUS"@,
            MappingProvenance::FileIdentityExtent => "FILE_IDENTITY_EXTENT_PATH"@,
            MappingProvenance::FileIdentityExtentAnonymous => "FILE_IDENTITY_EXTENT_PATH_ANONYMOUS"@,
            MappingProvenance::FileManifest => "FILE_MANIFEST_PATH"@,
        }
    }

    /// The stable label of the provenance.
    pub fn as_str(&self) -> (r: &'static str)
        ensures
            r@ == self.label(),
    {
        match self {
            MappingProvenance::RedundantVerifiedMap => "REDUNDANT_VERIFIED_MAP_PATH",
            MappingProvenance::SelfDescribingExtent => "SELF_DESCRIBING_EXTENT_PATH",
            MappingProvenance::CheckpointMapSnapshot => "CHECKPOINT_MAP_PATH",
            MappingProvenance::PayloadBlockIdentity => "PAYLOAD_BLOCK_IDENTITY_PATH",
            MappingProvenance::PayloadBlockIdentityAnonymous => "PAYLOAD_BLOCK_IDENTITY_PATH_ANONYMOUS",
            MappingProvenance::FileIdentityExtent => "FILE_IDENTITY_EXTENT_PATH",
            MappingProvenance::FileIdentityExtentAnonymous => "FILE_IDENTITY_EXTENT_PATH_ANONYMOUS",
            MappingProvenance::FileManifest => "FILE_MANIFEST_PATH",
        }
    }
}

/// The salvage plan of one file.
pub struct FilePlan {
    pub mapping_provenance: MappingProvenance,
    pub recovery_classification: RecoveryClassification,
    pub file_path: String,
    pub status: PlanStatus,
    pub reason: PlanReason,
    pub failure_reasons: Vec<ReasonCode>,
    pub required_block_ids: Vec<u32>,
    pub extents: Vec<Extent>,
    pub file_size: u64,
}

/// What a file plan states, as plain values.
pub struct FilePlanView {
    pub mapping_provenance: MappingProvenance,
    pub recovery_classification: RecoveryClassification,
    pub file_path: Seq<char>,
    pub status: PlanStatus,
    pub reason: PlanReason,
    pub failure_reasons: Seq<ReasonCode>,
    pub required_block_ids: Seq<u32>,
    pub extents: Seq<Extent>,
    pub file_size: u64,
}

impl View for FilePlan {
    type V = FilePlanView;

    open spec fn view(&self) -> FilePlanView {
        FilePlanView {
            mapping_provenance: self.mapping_provenance,
            recovery_classification: self.recovery_classification,
            file_path: self.file_path@,
            status: self.status,
            reason: self.reason,
            failure_reasons: self.failure_reasons@,
            required_block_ids: self.required_block_ids@,
            extents: self.extents@,
            file_size: self.file_size,
        }
    }
}

/// Why a metadata source was rejected as a whole. Indices count the files
/// handed to the planner and the extents of the file named.
#[derive(Clone, Copy, Debug, PartialEq, Eq, Structural)]
pub enum PlanError {
    /// Two files share a path.
    DuplicatePath { file_index: usize },
    /// A file of size zero lists extents.
    ZeroSizedFileHasExtents { file_index: usize },
    /// An extent has length zero.
    ExtentZeroLength { file_index: usize, extent_index: usize },
    /// An extent does not start where the previous one ended (or at 0).
    ExtentsNotContiguous { file_index: usize, extent_index: usize },
    /// `offset + len` of an extent does not fit in 64 bits.
    ExtentOffsetOverflow { file_index: usize, extent_index: usize },
    /// An extent ends past the file size.
    ExtentExceedsFileSize { file_index: usize, extent_index: usize },
    /// An extent names a block that is not indexed.
    UnmappedBlock { file_index: usize, extent_index: usize, block_id: u32 },
    /// An extent names a block whose raw length did not verify.
    MissingVerifiedRawLen { file_index: usize, extent_index: usize, block_id: u32 },
    /// An extent ends past the verified raw length of its block.
    ExtentExceedsRawLen { file_index: usize, extent_index: usize, block_id: u32 },
    /// The extents of a file do not add up to its size.
    IncompleteCoverage { file_index: usize },
    /// A record gives a file a size other than an earlier record of the same file.
    InconsistentFileSize { record_index: usize },
    /// A payload block identity record states a total block count of zero.
    PayloadTotalBlockCountZero { record_index: usize },
    /// A payload block identity record names a codec other than zstd (1).
    PayloadCodecMismatch { record_index: usize },
    /// A record points at a block whose content did not verify.
    UnverifiedContentBlock { record_index: usize },
    /// A record's content hashes differ from the metadata value of its block.
    ContentHashMismatch { record_index: usize },
    /// A record names another archive than the first record of its file.
    ArchiveIdentityMismatch { record_index: usize },
    /// A record states another file size than the first record of its file.
    FileSizeMismatch { record_index: usize },
    /// A record states another block count than the first record of its file.
    TotalBlockCountMismatch { record_index: usize },
    /// `logical_offset + logical_length` of a record does not fit in 64 bits.
    LogicalBoundsOverflow { record_index: usize },
    /// A record's logical range ends past its file size.
    LogicalBoundsExceedFileSize { record_index: usize },
    /// A record states a payload length of zero.
    PayloadLengthZero { record_index: usize },
    /// A file (by index in path order) has fewer or more blocks than its block count.
    MissingBlockCoverage { group_index: usize },
    /// The block indices of a file (by index in path order) are not 0, 1, 2, ...
    BlockIndexGap { group_index: usize },
    /// A record's path digest differs from the digest of the path it resolves to.
    PathDigestMismatch { record_index: usize },
    /// The extent ordinals of a file (by index in path order) are not 0, 1, 2, ...
    ExtentOrdinalGap { group_index: usize },
}

} // verus!
