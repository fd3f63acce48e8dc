//! APP firmware: the CRC, the firmware blob, the transfer package and its
//! transfer to the sensor.
use std::time::Duration;
use vstd::prelude::*;

use crate::bytes;
use crate::text;
use crate::transfer_link::{TransferExchange, TransferLink};

verus! {

/// One shift of the CRC-32/MPEG-2 register: the top bit selects whether the
/// polynomial `0x04C1_1DB7` is added after the shift.
pub open spec fn crc32_shift(crc: u32) -> u32 {
    if crc & 0x8000_0000u32 != 0 {
        (crc << 1u32) ^ 0x04c1_1db7u32
    } else {
        crc << 1u32
    }
}

/// `n` consecutive register shifts.
pub open spec fn crc32_shifts(crc: u32, n: nat) -> u32
    decreases n,
{
    if n == 0 {
        crc
    } else {
        crc32_shift(crc32_shifts(crc, (n - 1) as nat))
    }
}

/// CRC-32/MPEG-2 of a byte string: width 32, polynomial `0x04C1_1DB7`,
/// initial value `0xFFFF_FFFF`, no reflection, no final exclusive-or.
pub open spec fn crc32_mpeg2_spec(data: Seq<u8>) -> u32
    decreases data.len(),
{
    if data.len() == 0 {
        0xffff_ffffu32
    } else {
        let prior = crc32_mpeg2_spec(data.drop_last());
        crc32_shifts(prior ^ ((data.last() as u32) << 24u32), 8)
    }
}

/// Goodix CRC used by CheckFirmware and WriteApp: CRC-32/MPEG-2.
pub fn crc32_mpeg2(data: &[u8]) -> (crc: u32)
    ensures
        crc == crc32_mpeg2_spec(data@),
{
    let mut crc: u32 = 0xffff_ffffu32;
    for i in 0..data.len()
        invariant
            crc == crc32_mpeg2_spec(data@.take(i as int)),
    {
        let ghost before = crc;
        crc = crc ^ ((data[i] as u32) << 24u32);
        let ghost mixed = crc;
        for k in 0..8u32
            invariant
                crc == crc32_shifts(mixed, k as nat),
        {
            if crc & 0x8000_0000u32 != 0 {
                crc = (crc << 1u32) ^ 0x04c1_1db7u32;
            } else {
                crc = crc << 1u32;
            }
        }
        proof {
            assert(data@.take(i + 1).drop_last() =~= data@.take(i as int));
        }
    }
    proof {
        assert(data@.take(data@.len() as int) =~= data@);
    }
    crc
}

/// Bytes placed before the APP firmware in a transfer package.
pub const TRANSFER_HEADER_LEN: usize = 12;

/// Length of the CRC that closes a firmware blob.
pub const BLOB_CRC_LEN: usize = 4;

/// Firmware type of APP firmware in a chunk header.
pub const APP_FIRMWARE_TYPE: u32 = 2;

/// Length of the header of a write-command payload: package offset, chunk
/// length and firmware type, each a little-endian word.
pub const F0_PAYLOAD_HEADER_LEN: usize = 12;

/// Largest number of package bytes in one write command.
pub const F0_MAX_CHUNK_DATA: usize = 0x100;

/// Length of the authentication tag of the check command.
pub const F4_TAG_LEN: usize = 0x20;

/// Commands of the transfer stage: write one package chunk, and check the whole
/// package.
#[derive(Debug, Clone, Copy, PartialEq, Eq)]
pub enum FirmwareTransferCommand {
    F0Write,
    F4Check,
}

/// Result of a successful transfer.
#[derive(Debug, Clone, Copy, PartialEq, Eq)]
pub struct WriteAppTransferResult {
    pub f0_chunks_sent: usize,
    pub firmware_check_result: u8,
}

/// Error of the transfer stage; `E` is the caller's transport error.
#[derive(Debug, Clone, PartialEq, Eq)]
pub enum WriteAppTransferError<E> {
    Transport(E),
    /// The check completion holds other than one result byte.
    MalformedFirmwareCheckResponse { payload_len: usize },
    /// The check completion holds result zero.
    FirmwareCheckRejected { result: u8 },
}

#[derive(Debug, Clone, PartialEq, Eq)]
pub enum FirmwareError {
    BlobTooShort { size: usize },
    PrefixOutOfBounds { prefix_size: usize, blob_size: usize },
    EmptyApp,
    BlobCrcMismatch { expected: u32, computed: u32 },
    AppTooLarge { size: usize },
    PackageTooLarge { size: usize },
}

/// Length of the metadata prefix of a blob: its length byte and what follows.
pub open spec fn blob_prefix_size(raw: Seq<u8>) -> int {
    raw[0] + 1
}

/// Position of the CRC of a blob.
pub open spec fn blob_crc_at(raw: Seq<u8>) -> int {
    raw.len() - BLOB_CRC_LEN
}

/// The APP firmware of a blob.
pub open spec fn blob_app(raw: Seq<u8>) -> Seq<u8> {
    raw.subrange(blob_prefix_size(raw), blob_crc_at(raw))
}

/// The CRC that a blob stores.
pub open spec fn blob_stored_crc(raw: Seq<u8>) -> u32 {
    bytes::le32_at(raw, blob_crc_at(raw)) as u32
}

/// The CRC of everything before the stored one.
pub open spec fn blob_computed_crc(raw: Seq<u8>) -> u32 {
    crc32_mpeg2_spec(raw.take(blob_crc_at(raw)))
}

/// What is wrong with a firmware blob, if anything: a length byte, that many
/// metadata bytes, a non-empty APP, and the CRC of all of it.
pub open spec fn blob_error(raw: Seq<u8>) -> Option<FirmwareError> {
    if raw.len() < 1 + BLOB_CRC_LEN {
        Some(FirmwareError::BlobTooShort { size: raw.len() as usize })
    } else if blob_prefix_size(raw) > blob_crc_at(raw) {
        Some(
            FirmwareError::PrefixOutOfBounds {
                prefix_size: blob_prefix_size(raw) as usize,
                blob_size: raw.len() as usize,
            },
        )
    } else if blob_stored_crc(raw) != blob_computed_crc(raw) {
        Some(
            FirmwareError::BlobCrcMismatch {
                expected: blob_stored_crc(raw),
                computed: blob_computed_crc(raw),
            },
        )
    } else if blob_app(raw).len() == 0 {
        Some(FirmwareError::EmptyApp)
    } else {
        None
    }
}

/// A parsed and checked APP firmware blob.
#[derive(Debug, Clone, Copy)]
pub struct FirmwareBlob<'a> {
    raw: &'a [u8],
    prefix_size: usize,
    app: &'a [u8],
    stored_crc: u32,
}

impl<'a> View for FirmwareBlob<'a> {
    type V = Seq<u8>;

    closed spec fn view(&self) -> Seq<u8> {
        self.raw@
    }
}

impl<'a> FirmwareBlob<'a> {
    #[verifier::type_invariant]
    closed spec fn valid(&self) -> bool {
        &&& blob_error(self.raw@) is None
        &&& self.prefix_size == blob_prefix_size(self.raw@)
        &&& self.app@ == blob_app(self.raw@)
        &&& self.stored_crc == blob_stored_crc(self.raw@)
    }

    /// Parses a blob and checks its CRC.
    pub fn parse(raw: &'a [u8]) -> (result: Result<Self, FirmwareError>)
        ensures
            match blob_error(raw@) {
                Some(error) => result == Err::<FirmwareBlob<'a>, FirmwareError>(error),
                None => result is Ok && result->Ok_0@ == raw@,
            },
    {
        if raw.len() < 1 + BLOB_CRC_LEN {
            return Err(FirmwareError::BlobTooShort { size: raw.len() });
        }
        let prefix_size: usize = raw[0] as usize + 1;
        let crc_offset: usize = raw.len() - BLOB_CRC_LEN;
        if prefix_size > crc_offset {
            return Err(FirmwareError::PrefixOutOfBounds { prefix_size, blob_size: raw.len() });
        }
        let stored_crc: u32 = bytes::read_le32(raw, crc_offset);
        let covered: &[u8] = vstd::slice::slice_subrange(raw, 0, crc_offset);
        proof {
            assert(covered@ =~= raw@.take(blob_crc_at(raw@)));
        }
        let computed_crc: u32 = crc32_mpeg2(covered);
        if stored_crc != computed_crc {
            return Err(
                FirmwareError::BlobCrcMismatch { expected: stored_crc, computed: computed_crc },
            );
        }
        let app: &'a [u8] = vstd::slice::slice_subrange(raw, prefix_size, crc_offset);
        if app.len() == 0 {
            return Err(FirmwareError::EmptyApp);
        }
        Ok(FirmwareBlob { raw, prefix_size, app, stored_crc })
    }

    pub fn raw(&self) -> (raw: &'a [u8])
        ensures
            raw@ == self@,
            blob_error(self@) is None,
    {
        proof {
            use_type_invariant(self);
        }
        self.raw
    }

    pub fn metadata_length(&self) -> (length: usize)
        ensures
            length == self@[0],
    {
        proof {
            use_type_invariant(self);
        }
        self.prefix_size - 1
    }

    pub fn prefix_size(&self) -> (size: usize)
        ensures
            size == blob_prefix_size(self@),
    {
        proof {
            use_type_invariant(self);
        }
        self.prefix_size
    }

    pub fn prefix(&self) -> (prefix: &'a [u8])
        ensures
            prefix@ == self@.take(blob_prefix_size(self@)),
    {
        proof {
            use_type_invariant(self);
        }
        let prefix: &'a [u8] = vstd::slice::slice_subrange(self.raw, 0, self.prefix_size);
        assert(prefix@ =~= self@.take(blob_prefix_size(self@)));
        prefix
    }

    pub fn metadata(&self) -> (metadata: &'a [u8])
        ensures
            metadata@ == self@.subrange(1, blob_prefix_size(self@)),
    {
        proof {
            use_type_invariant(self);
        }
        vstd::slice::slice_subrange(self.raw, 1, self.prefix_size)
    }

    pub fn app(&self) -> (app: &'a [u8])
        ensures
            app@ == blob_app(self@),
            app@.len() > 0,
    {
        proof {
            use_type_invariant(self);
        }
        self.app
    }

    pub fn stored_crc(&self) -> (crc: u32)
        ensures
            crc == blob_stored_crc(self@),
    {
        proof {
            use_type_invariant(self);
        }
        self.stored_crc
    }

    /// The CRC of the blob, which equals the stored one.
    pub fn computed_crc(&self) -> (crc: u32)
        ensures
            crc == blob_computed_crc(self@),
            crc == blob_stored_crc(self@),
    {
        proof {
            use_type_invariant(self);
        }
        let covered: &[u8] = vstd::slice::slice_subrange(
            self.raw,
            0,
            self.raw.len() - BLOB_CRC_LEN,
        );
        proof {
            assert(covered@ =~= self@.take(blob_crc_at(self@)));
        }
        crc32_mpeg2(covered)
    }
}

/// CRC of the length and CRC words of a transfer header.
pub open spec fn header_crc_spec(app: Seq<u8>) -> u32 {
    crc32_mpeg2_spec(bytes::le32(app.len() as u32) + bytes::le32(crc32_mpeg2_spec(app)))
}

/// The transfer package of an APP: header CRC, length and APP CRC as
/// little-endian words, then the APP itself.
pub open spec fn package_bytes(app: Seq<u8>) -> Seq<u8> {
    bytes::le32(header_crc_spec(app)) + bytes::le32(app.len() as u32) + bytes::le32(
        crc32_mpeg2_spec(app),
    ) + app
}

/// The APP in a transfer package.
pub open spec fn package_app(package: Seq<u8>) -> Seq<u8> {
    package.skip(TRANSFER_HEADER_LEN as int)
}

/// A package that `from_app` can have built.
pub open spec fn is_package(package: Seq<u8>) -> bool {
    &&& TRANSFER_HEADER_LEN < package.len() <= u32::MAX
    &&& package == package_bytes(package_app(package))
}

/// Why an APP cannot be packed, if it cannot.
pub open spec fn package_error(app_len: nat) -> Option<FirmwareError> {
    if app_len == 0 {
        Some(FirmwareError::EmptyApp)
    } else if app_len > u32::MAX {
        Some(FirmwareError::AppTooLarge { size: app_len as usize })
    } else if TRANSFER_HEADER_LEN + app_len > usize::MAX {
        Some(FirmwareError::PackageTooLarge { size: usize::MAX })
    } else if TRANSFER_HEADER_LEN + app_len > u32::MAX {
        Some(FirmwareError::PackageTooLarge { size: (TRANSFER_HEADER_LEN + app_len) as usize })
    } else {
        None
    }
}

/// Number of chunks of a package.
pub open spec fn chunk_count(package_len: nat) -> nat {
    (package_len + F0_MAX_CHUNK_DATA - 1) as nat / F0_MAX_CHUNK_DATA as nat
}

/// Where chunk `i` ends.
pub open spec fn chunk_end(package_len: nat, i: int) -> int {
    if (i + 1) * F0_MAX_CHUNK_DATA < package_len {
        (i + 1) * F0_MAX_CHUNK_DATA
    } else {
        package_len as int
    }
}

/// The package bytes of chunk `i`.
pub open spec fn chunk_data(package: Seq<u8>, i: int) -> Seq<u8> {
    package.subrange(i * F0_MAX_CHUNK_DATA, chunk_end(package.len(), i))
}

/// Payload of a write command.
pub open spec fn f0_payload_spec(offset: u32, firmware_type: u32, data: Seq<u8>) -> Seq<u8> {
    bytes::le32(offset) + bytes::le32(data.len() as u32) + bytes::le32(firmware_type) + data
}

/// Payload of the write command of chunk `i`.
pub open spec fn package_payload(package: Seq<u8>, i: int) -> Seq<u8> {
    f0_payload_spec(
        (i * F0_MAX_CHUNK_DATA) as u32,
        APP_FIRMWARE_TYPE,
        chunk_data(package, i),
    )
}

/// One chunk of a transfer package.
#[derive(Debug, Clone, Copy)]
pub struct FirmwareChunk<'a> {
    offset: u32,
    firmware_type: u32,
    data: &'a [u8],
}

impl<'a> FirmwareChunk<'a> {
    #[verifier::type_invariant]
    closed spec fn valid(&self) -> bool {
        self.data@.len() <= F0_MAX_CHUNK_DATA
    }

    pub closed spec fn offset_spec(&self) -> u32 {
        self.offset
    }

    pub closed spec fn type_spec(&self) -> u32 {
        self.firmware_type
    }

    pub closed spec fn data_spec(&self) -> Seq<u8> {
        self.data@
    }

    pub fn offset(&self) -> (offset: u32)
        ensures
            offset == self.offset_spec(),
    {
        self.offset
    }

    pub fn length(&self) -> (length: u32)
        ensures
            length == self.data_spec().len(),
    {
        proof {
            use_type_invariant(self);
        }
        self.data.len() as u32
    }

    pub fn firmware_type(&self) -> (firmware_type: u32)
        ensures
            firmware_type == self.type_spec(),
    {
        self.firmware_type
    }

    pub fn data(&self) -> (data: &'a [u8])
        ensures
            data@ == self.data_spec(),
    {
        self.data
    }

    /// Length of the payload with its header.
    pub fn f0_payload_len(&self) -> (length: usize)
        ensures
            length == F0_PAYLOAD_HEADER_LEN + self.data_spec().len(),
    {
        proof {
            use_type_invariant(self);
        }
        F0_PAYLOAD_HEADER_LEN + self.data.len()
    }

    /// The payload of the write command of this chunk.
    pub fn f0_payload(&self) -> (payload: Vec<u8>)
        ensures
            payload@ == f0_payload_spec(self.offset_spec(), self.type_spec(), self.data_spec()),
            payload@.len() == F0_PAYLOAD_HEADER_LEN + self.data_spec().len(),
    {
        proof {
            use_type_invariant(self);
        }
        let mut payload: Vec<u8> = Vec::with_capacity(self.f0_payload_len());
        bytes::push_le32(&mut payload, self.offset);
        bytes::push_le32(&mut payload, self.length());
        bytes::push_le32(&mut payload, self.firmware_type);
        bytes::push_all(&mut payload, self.data);
        assert(payload@ =~= f0_payload_spec(self.offset, self.firmware_type, self.data@));
        payload
    }
}

/// Package that carries an APP to the sensor.
#[derive(Debug, PartialEq, Eq)]
pub struct AppTransferPackage {
    bytes: Vec<u8>,
    app_len: u32,
    app_crc: u32,
    header_crc: u32,
}

impl View for AppTransferPackage {
    type V = Seq<u8>;

    closed spec fn view(&self) -> Seq<u8> {
        self.bytes@
    }
}

impl Clone for AppTransferPackage {
    fn clone(&self) -> (copy: Self)
        ensures
            copy@ == self@,
    {
        proof {
            use_type_invariant(self);
        }
        let mut bytes: Vec<u8> = Vec::with_capacity(self.bytes.len());
        bytes::push_all(&mut bytes, self.bytes.as_slice());
        proof {
            assert(bytes@ =~= self.bytes@);
        }
        AppTransferPackage {
            bytes,
            app_len: self.app_len,
            app_crc: self.app_crc,
            header_crc: self.header_crc,
        }
    }
}

impl AppTransferPackage {
    #[verifier::type_invariant]
    closed spec fn valid(&self) -> bool {
        &&& is_package(self.bytes@)
        &&& self.app_len == package_app(self.bytes@).len()
        &&& self.app_crc == crc32_mpeg2_spec(package_app(self.bytes@))
        &&& self.header_crc == header_crc_spec(package_app(self.bytes@))
    }

    /// Packs the APP of a blob.
    pub fn build(blob: &FirmwareBlob<'_>) -> (result: Result<Self, FirmwareError>)
        ensures
            match package_error(blob_app(blob@).len()) {
                Some(error) => result == Err::<AppTransferPackage, FirmwareError>(error),
                None => result is Ok && result->Ok_0@ == package_bytes(blob_app(blob@)),
            },
    {
        Self::from_app(blob.app())
    }

    /// Packs an APP.
    pub fn from_app(app: &[u8]) -> (result: Result<Self, FirmwareError>)
        ensures
            match package_error(app@.len()) {
                Some(error) => result == Err::<AppTransferPackage, FirmwareError>(error),
                None => result is Ok && result->Ok_0@ == package_bytes(app@),
            },
    {
        if app.len() == 0 {
            return Err(FirmwareError::EmptyApp);
        }
        if app.len() as u64 > u32::MAX as u64 {
            return Err(FirmwareError::AppTooLarge { size: app.len() });
        }
        let app_len: u32 = app.len() as u32;
        let package_len: usize = match TRANSFER_HEADER_LEN.checked_add(app.len()) {
            Some(len) => len,
            None => {
                return Err(FirmwareError::PackageTooLarge { size: usize::MAX });
            },
        };
        if package_len as u64 > u32::MAX as u64 {
            return Err(FirmwareError::PackageTooLarge { size: package_len });
        }
        let app_crc: u32 = crc32_mpeg2(app);
        let mut header: Vec<u8> = Vec::with_capacity(8);
        bytes::push_le32(&mut header, app_len);
        bytes::push_le32(&mut header, app_crc);
        proof {
            assert(header@ =~= bytes::le32(app_len) + bytes::le32(app_crc));
        }
        let header_crc: u32 = crc32_mpeg2(header.as_slice());
        let mut out: Vec<u8> = Vec::with_capacity(package_len);
        bytes::push_le32(&mut out, header_crc);
        bytes::push_le32(&mut out, app_len);
        bytes::push_le32(&mut out, app_crc);
        bytes::push_all(&mut out, app);
        proof {
            assert(out@ =~= package_bytes(app@));
            assert(package_app(out@) =~= app@);
        }
        Ok(AppTransferPackage { bytes: out, app_len, app_crc, header_crc })
    }

    pub fn bytes(&self) -> (bytes: &[u8])
        ensures
            bytes@ == self@,
            is_package(self@),
    {
        proof {
            use_type_invariant(self);
        }
        self.bytes.as_slice()
    }

    pub fn into_bytes(self) -> (bytes: Vec<u8>)
        ensures
            bytes@ == self@,
            is_package(self@),
    {
        proof {
            use_type_invariant(&self);
        }
        self.bytes
    }

    pub fn len(&self) -> (len: usize)
        ensures
            len == self@.len(),
    {
        self.bytes.len()
    }

    /// A package is never empty.
    pub fn is_empty(&self) -> (empty: bool)
        ensures
            empty == (self@.len() == 0),
            !empty,
    {
        proof {
            use_type_invariant(self);
        }
        self.bytes.len() == 0
    }

    pub fn app_len(&self) -> (len: u32)
        ensures
            len == package_app(self@).len(),
    {
        proof {
            use_type_invariant(self);
        }
        self.app_len
    }

    pub fn app_crc(&self) -> (crc: u32)
        ensures
            crc == crc32_mpeg2_spec(package_app(self@)),
    {
        proof {
            use_type_invariant(self);
        }
        self.app_crc
    }

    pub fn header_crc(&self) -> (crc: u32)
        ensures
            crc == header_crc_spec(package_app(self@)),
    {
        proof {
            use_type_invariant(self);
        }
        self.header_crc
    }

    pub fn app(&self) -> (app: &[u8])
        ensures
            app@ == package_app(self@),
    {
        proof {
            use_type_invariant(self);
        }
        let app: &[u8] = vstd::slice::slice_subrange(
            self.bytes.as_slice(),
            TRANSFER_HEADER_LEN,
            self.bytes.len(),
        );
        assert(app@ =~= package_app(self@));
        app
    }

    /// Number of write commands of this package.
    pub fn f0_chunk_count(&self) -> (count: usize)
        ensures
            count == chunk_count(self@.len()),
    {
        proof {
            use_type_invariant(self);
        }
        let whole: usize = self.bytes.len() / F0_MAX_CHUNK_DATA;
        if self.bytes.len() % F0_MAX_CHUNK_DATA == 0 {
            whole
        } else {
            whole + 1
        }
    }

    /// Chunk `index` of the package.
    fn chunk(&self, index: usize) -> (chunk: FirmwareChunk<'_>)
        requires
            index < chunk_count(self@.len()),
        ensures
            chunk.offset_spec() == index * F0_MAX_CHUNK_DATA,
            chunk.type_spec() == APP_FIRMWARE_TYPE,
            chunk.data_spec() == chunk_data(self@, index as int),
    {
        proof {
            use_type_invariant(self);
        }
        let start: usize = index * F0_MAX_CHUNK_DATA;
        let end: usize = if self.bytes.len() - start > F0_MAX_CHUNK_DATA {
            start + F0_MAX_CHUNK_DATA
        } else {
            self.bytes.len()
        };
        let data: &[u8] = vstd::slice::slice_subrange(self.bytes.as_slice(), start, end);
        FirmwareChunk { offset: start as u32, firmware_type: APP_FIRMWARE_TYPE, data }
    }

    /// The chunks of the package, in order.
    pub fn chunks(&self) -> (chunks: Vec<FirmwareChunk<'_>>)
        ensures
            chunks@.len() == chunk_count(self@.len()),
            forall|i: int|
                0 <= i < chunks@.len() ==> {
                    &&& (#[trigger] chunks@[i]).offset_spec() == i * F0_MAX_CHUNK_DATA
                    &&& chunks@[i].type_spec() == APP_FIRMWARE_TYPE
                    &&& chunks@[i].data_spec() == chunk_data(self@, i)
                },
    {
        let count: usize = self.f0_chunk_count();
        let mut chunks: Vec<FirmwareChunk<'_>> = Vec::with_capacity(count);
        for i in 0..count
            invariant
                count == chunk_count(self@.len()),
                chunks@.len() == i,
                forall|j: int|
                    0 <= j < i ==> {
                        &&& (#[trigger] chunks@[j]).offset_spec() == j * F0_MAX_CHUNK_DATA
                        &&& chunks@[j].type_spec() == APP_FIRMWARE_TYPE
                        &&& chunks@[j].data_spec() == chunk_data(self@, j)
                    },
        {
            chunks.push(self.chunk(i));
        }
        chunks
    }

    /// The write-command payloads of the package, in order.
    pub fn f0_payloads(&self) -> (payloads: Vec<Vec<u8>>)
        ensures
            payloads@.len() == chunk_count(self@.len()),
            forall|i: int|
                0 <= i < payloads@.len() ==> (#[trigger] payloads@[i])@ == package_payload(self@, i),
    {
        let count: usize = self.f0_chunk_count();
        let mut payloads: Vec<Vec<u8>> = Vec::with_capacity(count);
        for i in 0..count
            invariant
                count == chunk_count(self@.len()),
                payloads@.len() == i,
                forall|j: int|
                    0 <= j < i ==> (#[trigger] payloads@[j])@ == package_payload(self@, j),
        {
            payloads.push(self.chunk(i).f0_payload());
        }
        payloads
    }
}

/// The first `n` chunks of a package, one after another.
pub open spec fn joined_chunks(package: Seq<u8>, n: nat) -> Seq<u8>
    decreases n,
{
    if n == 0 {
        Seq::empty()
    } else {
        joined_chunks(package, (n - 1) as nat) + chunk_data(package, n - 1)
    }
}

/// The chunks of a package, joined in order, are the package.
pub proof fn lemma_chunks_rebuild_package(package: Seq<u8>)
    ensures
        joined_chunks(package, chunk_count(package.len())) == package,
{
    let n = chunk_count(package.len());
    lemma_joined_chunks(package, n);
    assert(package.take(package.len() as int) =~= package);
}

proof fn lemma_joined_chunks(package: Seq<u8>, n: nat)
    requires
        n <= chunk_count(package.len()),
    ensures
        joined_chunks(package, n) == package.take(
            if n * F0_MAX_CHUNK_DATA as nat <= package.len() {
                n * F0_MAX_CHUNK_DATA as nat
            } else {
                package.len()
            } as int,
        ),
    decreases n,
{
    if n > 0 {
        lemma_joined_chunks(package, (n - 1) as nat);
        let before = (n - 1) * F0_MAX_CHUNK_DATA as nat;
        assert(package.take(before) + chunk_data(package, n - 1) =~= package.take(
            chunk_end(package.len(), n - 1),
        ));
    } else {
        assert(package.take(0) =~= Seq::<u8>::empty());
    }
}

/// A transfer package gives back the length and the CRC of its APP, and the CRC
/// of its header.
pub proof fn lemma_package_header(app: Seq<u8>)
    requires
        app.len() <= u32::MAX,
    ensures
        package_bytes(app).len() == TRANSFER_HEADER_LEN + app.len(),
        package_app(package_bytes(app)) == app,
        bytes::le32_at(package_bytes(app), 0) == header_crc_spec(app),
        bytes::le32_at(package_bytes(app), 4) == app.len(),
        bytes::le32_at(package_bytes(app), 8) == crc32_mpeg2_spec(app),
{
    let package = package_bytes(app);
    assert(package_app(package) =~= app);
    assert(package.subrange(0, 4) =~= bytes::le32(header_crc_spec(app)));
    assert(package.subrange(4, 8) =~= bytes::le32(app.len() as u32));
    assert(package.subrange(8, 12) =~= bytes::le32(crc32_mpeg2_spec(app)));
    bytes::lemma_le32_round_trip(header_crc_spec(app), package, 0);
    bytes::lemma_le32_round_trip(app.len() as u32, package, 4);
    bytes::lemma_le32_round_trip(crc32_mpeg2_spec(app), package, 8);
}

/// What the completion of the check command means after `sent` chunks.
pub open spec fn check_outcome_spec<E>(completion: Seq<u8>, sent: nat) -> Result<
    WriteAppTransferResult,
    WriteAppTransferError<E>,
> {
    if completion.len() != 1 {
        Err(
            WriteAppTransferError::MalformedFirmwareCheckResponse {
                payload_len: completion.len() as usize,
            },
        )
    } else if completion[0] == 0 {
        Err(WriteAppTransferError::FirmwareCheckRejected { result: completion[0] })
    } else {
        Ok(
            WriteAppTransferResult {
                f0_chunks_sent: sent as usize,
                firmware_check_result: completion[0],
            },
        )
    }
}

/// Judges the completion of the check command: exactly one byte, and not zero.
pub fn firmware_check_outcome<E>(completion: &[u8], sent: usize) -> (result: Result<
    WriteAppTransferResult,
    WriteAppTransferError<E>,
>)
    ensures
        result == check_outcome_spec::<E>(completion@, sent as nat),
{
    if completion.len() != 1 {
        return Err(
            WriteAppTransferError::MalformedFirmwareCheckResponse {
                payload_len: completion.len(),
            },
        );
    }
    if completion[0] == 0 {
        return Err(WriteAppTransferError::FirmwareCheckRejected { result: completion[0] });
    }
    Ok(WriteAppTransferResult { f0_chunks_sent: sent, firmware_check_result: completion[0] })
}

/// The transport `F` may have answered a command with `reply`.
pub open spec fn transport_answered<
    E,
    F: FnMut(FirmwareTransferCommand, &[u8], Duration) -> Result<Vec<u8>, E>,
>(
    command: FirmwareTransferCommand,
    payload: Seq<u8>,
    timeout: Duration,
    reply: Result<Vec<u8>, E>,
) -> bool {
    exists|transact: F, sent: &[u8]|
        sent@ == payload && #[trigger] call_ensures(transact, (command, sent, timeout), reply)
}

/// The transport `F` answered the write of chunk `i` without an error.
pub open spec fn is_written<
    E,
    F: FnMut(FirmwareTransferCommand, &[u8], Duration) -> Result<Vec<u8>, E>,
>(package: Seq<u8>, f0_timeout: Duration, i: int) -> bool {
    exists|reply: Result<Vec<u8>, E>|
        reply is Ok && #[trigger] transport_answered::<E, F>(
            FirmwareTransferCommand::F0Write,
            package_payload(package, i),
            f0_timeout,
            reply,
        )
}

/// The transport `F` answered the writes of the first `n` chunks without an
/// error.
pub open spec fn all_written<
    E,
    F: FnMut(FirmwareTransferCommand, &[u8], Duration) -> Result<Vec<u8>, E>,
>(package: Seq<u8>, f0_timeout: Duration, n: int) -> bool {
    forall|j: int| 0 <= j < n ==> #[trigger] is_written::<E, F>(package, f0_timeout, j)
}

/// `replies` are the answers to a whole or broken-off transfer: a write command
/// per chunk in order, then the check command with the tag, up to the first
/// error.
pub open spec fn is_transfer_transcript<
    E,
    F: FnMut(FirmwareTransferCommand, &[u8], Duration) -> Result<Vec<u8>, E>,
>(
    replies: Seq<Result<Vec<u8>, E>>,
    package: Seq<u8>,
    f4_tag: Seq<u8>,
    f0_timeout: Duration,
    f4_timeout: Duration,
) -> bool {
    let count = chunk_count(package.len());
    &&& 1 <= replies.len() <= count + 1
    &&& replies.len() <= count ==> replies.last() is Err
    &&& forall|i: int| 0 <= i < replies.len() - 1 ==> (#[trigger] replies[i]) is Ok
    &&& forall|i: int|
        0 <= i < replies.len() ==> if i < count {
            transport_answered::<E, F>(
                FirmwareTransferCommand::F0Write,
                package_payload(package, i),
                f0_timeout,
                #[trigger] replies[i],
            )
        } else {
            transport_answered::<E, F>(
                FirmwareTransferCommand::F4Check,
                f4_tag,
                f4_timeout,
                replies[i],
            )
        }
}

/// What a transfer with the given answers comes to.
pub open spec fn transfer_outcome<E>(replies: Seq<Result<Vec<u8>, E>>, count: nat) -> Result<
    WriteAppTransferResult,
    WriteAppTransferError<E>,
> {
    match replies.last() {
        Err(error) => Err(WriteAppTransferError::Transport(error)),
        Ok(completion) => check_outcome_spec(completion@, count),
    }
}

/// The exchanges of a transfer with the given answers: a write command per chunk
/// in order, then the check command with the tag, as many as there are answers.
pub open spec fn transfer_exchanges<E>(
    replies: Seq<Result<Vec<u8>, E>>,
    package: Seq<u8>,
    f4_tag: Seq<u8>,
    f0_timeout: Duration,
    f4_timeout: Duration,
) -> Seq<TransferExchange<E>> {
    Seq::new(
        replies.len(),
        |i: int|
            if i < chunk_count(package.len()) {
                TransferExchange {
                    command: FirmwareTransferCommand::F0Write,
                    payload: package_payload(package, i),
                    timeout: f0_timeout,
                    reply: replies[i],
                }
            } else {
                TransferExchange {
                    command: FirmwareTransferCommand::F4Check,
                    payload: f4_tag,
                    timeout: f4_timeout,
                    reply: replies[i],
                }
            },
    )
}

/// A transfer stops at its first error, sends each chunk at most once and in
/// order, and sends the check command only after every chunk was written.
pub proof fn lemma_transfer_stops_at_error<
    E,
    F: FnMut(FirmwareTransferCommand, &[u8], Duration) -> Result<Vec<u8>, E>,
>(
    replies: Seq<Result<Vec<u8>, E>>,
    package: Seq<u8>,
    f4_tag: Seq<u8>,
    f0_timeout: Duration,
    f4_timeout: Duration,
)
    requires
        is_transfer_transcript::<E, F>(replies, package, f4_tag, f0_timeout, f4_timeout),
    ensures
        ({
            let made = transfer_exchanges(replies, package, f4_tag, f0_timeout, f4_timeout);
            &&& forall|i: int|
                0 <= i < made.len() && (#[trigger] made[i]).reply is Err ==> i == made.len() - 1
                    && transfer_outcome(replies, chunk_count(package.len())) == Err::<
                    WriteAppTransferResult,
                    WriteAppTransferError<E>,
                >(WriteAppTransferError::Transport(made[i].reply->Err_0))
            &&& forall|i: int|
                0 <= i < made.len() && (#[trigger] made[i]).command
                    == FirmwareTransferCommand::F0Write ==> made[i].payload == package_payload(
                    package,
                    i,
                )
            &&& forall|i: int|
                0 <= i < made.len() && (#[trigger] made[i]).command
                    == FirmwareTransferCommand::F4Check ==> i == chunk_count(package.len())
                    && made.len() == i + 1 && all_written::<E, F>(package, f0_timeout, i)
        }),
{
    let made = transfer_exchanges(replies, package, f4_tag, f0_timeout, f4_timeout);
    assert forall|i: int|
        0 <= i < made.len() && (#[trigger] made[i]).reply is Err implies i == made.len() - 1 by {
        assert(made[i].reply == replies[i]);
    }
    assert forall|i: int|
        0 <= i < made.len() && (#[trigger] made[i]).command
            == FirmwareTransferCommand::F4Check implies i == chunk_count(package.len())
        && made.len() == i + 1 && all_written::<E, F>(package, f0_timeout, i) by {
        assert forall|j: int| 0 <= j < i implies #[trigger] is_written::<E, F>(
            package,
            f0_timeout,
            j,
        ) by {
            assert(replies[j] is Ok);
        }
    }
}

/// Makes the transfer over `link`, and no other exchange.
pub fn transfer_over<E, F>(
    package: &AppTransferPackage,
    f4_tag: &[u8; 32],
    f0_timeout: Duration,
    f4_timeout: Duration,
    link: &mut TransferLink<E, F>,
) -> (result: Result<WriteAppTransferResult, WriteAppTransferError<E>>) where
    F: FnMut(FirmwareTransferCommand, &[u8], Duration) -> Result<Vec<u8>, E>,

    requires
        forall|f: F, i: int, payload: &[u8]|
            #![trigger
                call_requires(f, (FirmwareTransferCommand::F0Write, payload, f0_timeout)),
                package_payload(package@, i)
            ]
            0 <= i < chunk_count(package@.len()) && payload@ == package_payload(package@, i)
                && all_written::<E, F>(package@, f0_timeout, i) ==> call_requires(
                f,
                (FirmwareTransferCommand::F0Write, payload, f0_timeout),
            ),
        forall|f: F, tag: &[u8]|
            tag@ == f4_tag@ && all_written::<E, F>(
                package@,
                f0_timeout,
                chunk_count(package@.len()) as int,
            ) ==> #[trigger] call_requires(f, (FirmwareTransferCommand::F4Check, tag, f4_timeout)),
    ensures
        exists|replies: Seq<Result<Vec<u8>, E>>|
            #[trigger] is_transfer_transcript::<E, F>(
                replies,
                package@,
                f4_tag@,
                f0_timeout,
                f4_timeout,
            ) && final(link).history() == old(link).history() + transfer_exchanges(
                replies,
                package@,
                f4_tag@,
                f0_timeout,
                f4_timeout,
            ) && result == transfer_outcome(replies, chunk_count(package@.len())),
{
    let count: usize = package.f0_chunk_count();
    let ghost mut replies: Seq<Result<Vec<u8>, E>> = Seq::empty();
    assert(link.history() =~= old(link).history() + transfer_exchanges(
        replies,
        package@,
        f4_tag@,
        f0_timeout,
        f4_timeout,
    ));
    for i in 0..count
        invariant
            count == chunk_count(package@.len()),
            forall|f: F, i: int, payload: &[u8]|
                #![trigger
                    call_requires(f, (FirmwareTransferCommand::F0Write, payload, f0_timeout)),
                    package_payload(package@, i)
                ]
                0 <= i < chunk_count(package@.len()) && payload@ == package_payload(package@, i)
                    && all_written::<E, F>(package@, f0_timeout, i) ==> call_requires(
                    f,
                    (FirmwareTransferCommand::F0Write, payload, f0_timeout),
                ),
            forall|f: F, tag: &[u8]|
                tag@ == f4_tag@ && all_written::<E, F>(
                    package@,
                    f0_timeout,
                    chunk_count(package@.len()) as int,
                ) ==> #[trigger] call_requires(f, (FirmwareTransferCommand::F4Check, tag, f4_timeout)),
            replies.len() == i,
            forall|j: int| 0 <= j < i ==> (#[trigger] replies[j]) is Ok,
            forall|j: int|
                0 <= j < i ==> transport_answered::<E, F>(
                    FirmwareTransferCommand::F0Write,
                    package_payload(package@, j),
                    f0_timeout,
                    #[trigger] replies[j],
                ),
            all_written::<E, F>(package@, f0_timeout, i as int),
            link.history() == old(link).history() + transfer_exchanges(
                replies,
                package@,
                f4_tag@,
                f0_timeout,
                f4_timeout,
            ),
    {
        let payload: Vec<u8> = package.chunk(i).f0_payload();
        let ghost transport = link.transport();
        let ghost before = replies;
        let sent: &[u8] = payload.as_slice();
        assert(sent@ == package_payload(package@, i as int));
        let reply: Result<Vec<u8>, E> = link.send(
            FirmwareTransferCommand::F0Write,
            sent,
            f0_timeout,
        );
        proof {
            assert(call_ensures(
                transport,
                (FirmwareTransferCommand::F0Write, sent, f0_timeout),
                reply,
            ));
            assert(transport_answered::<E, F>(
                FirmwareTransferCommand::F0Write,
                package_payload(package@, i as int),
                f0_timeout,
                reply,
            ));
            replies = replies.push(reply);
            assert(transfer_exchanges(replies, package@, f4_tag@, f0_timeout, f4_timeout)
                =~= transfer_exchanges(
                before,
                package@,
                f4_tag@,
                f0_timeout,
                f4_timeout,
            ).push(
                TransferExchange {
                    command: FirmwareTransferCommand::F0Write,
                    payload: sent@,
                    timeout: f0_timeout,
                    reply,
                },
            ));
            assert(link.history() =~= old(link).history() + transfer_exchanges(
                replies,
                package@,
                f4_tag@,
                f0_timeout,
                f4_timeout,
            ));
        }
        match reply {
            Ok(_) => {},
            Err(error) => {
                assert(is_transfer_transcript::<E, F>(
                    replies,
                    package@,
                    f4_tag@,
                    f0_timeout,
                    f4_timeout,
                ));
                return Err(WriteAppTransferError::Transport(error));
            },
        }
    }
    let ghost transport = link.transport();
    let ghost before = replies;
    let tag: &[u8] = f4_tag.as_slice();
    let reply: Result<Vec<u8>, E> = link.send(FirmwareTransferCommand::F4Check, tag, f4_timeout);
    proof {
        assert(call_ensures(
            transport,
            (FirmwareTransferCommand::F4Check, tag, f4_timeout),
            reply,
        ));
        replies = replies.push(reply);
        assert(transfer_exchanges(replies, package@, f4_tag@, f0_timeout, f4_timeout)
            =~= transfer_exchanges(before, package@, f4_tag@, f0_timeout, f4_timeout).push(
            TransferExchange {
                command: FirmwareTransferCommand::F4Check,
                payload: f4_tag@,
                timeout: f4_timeout,
                reply,
            },
        ));
        assert(link.history() =~= old(link).history() + transfer_exchanges(
            replies,
            package@,
            f4_tag@,
            f0_timeout,
            f4_timeout,
        ));
        assert(is_transfer_transcript::<E, F>(
            replies,
            package@,
            f4_tag@,
            f0_timeout,
            f4_timeout,
        ));
    }
    match reply {
        Ok(completion) => firmware_check_outcome(completion.as_slice(), count),
        Err(error) => Err(WriteAppTransferError::Transport(error)),
    }
}

/// Sends every chunk of the package with a write command, then the tag with the
/// check command. The completions of write commands are not looked at; the
/// first transport error ends the transfer. A chunk may be sent once those
/// before it were written, and the tag once all were.
pub fn write_app_transfer<E, F>(
    package: &AppTransferPackage,
    f4_tag: &[u8; 32],
    f0_timeout: Duration,
    f4_timeout: Duration,
    transact: F,
) -> (result: Result<WriteAppTransferResult, WriteAppTransferError<E>>) where
    F: FnMut(FirmwareTransferCommand, &[u8], Duration) -> Result<Vec<u8>, E>,

    requires
        forall|f: F, i: int, payload: &[u8]|
            #![trigger
                call_requires(f, (FirmwareTransferCommand::F0Write, payload, f0_timeout)),
                package_payload(package@, i)
            ]
            0 <= i < chunk_count(package@.len()) && payload@ == package_payload(package@, i)
                && all_written::<E, F>(package@, f0_timeout, i) ==> call_requires(
                f,
                (FirmwareTransferCommand::F0Write, payload, f0_timeout),
            ),
        forall|f: F, tag: &[u8]|
            tag@ == f4_tag@ && all_written::<E, F>(
                package@,
                f0_timeout,
                chunk_count(package@.len()) as int,
            ) ==> #[trigger] call_requires(f, (FirmwareTransferCommand::F4Check, tag, f4_timeout)),
    ensures
        exists|replies: Seq<Result<Vec<u8>, E>>|
            #[trigger] is_transfer_transcript::<E, F>(
                replies,
                package@,
                f4_tag@,
                f0_timeout,
                f4_timeout,
            ) && result == transfer_outcome(replies, chunk_count(package@.len())),
{
    let mut link: TransferLink<E, F> = TransferLink::new(transact);
    transfer_over(package, f4_tag, f0_timeout, f4_timeout, &mut link)
}

impl FirmwareError {
    pub open spec fn message_spec(&self) -> Seq<char> {
        match self {
            FirmwareError::BlobTooShort { size } => {
                "firmware blob is too short: "@ + text::decimal(*size as nat) + " bytes"@
            },
            FirmwareError::PrefixOutOfBounds { prefix_size, blob_size } => {
                "firmware metadata prefix extends past blob: prefix size "@
                    + text::decimal(*prefix_size as nat) + ", blob size "@
                    + text::decimal(*blob_size as nat)
            },
            FirmwareError::EmptyApp => "firmware blob contains no APP payload"@,
            FirmwareError::BlobCrcMismatch { expected, computed } => {
                "firmware blob CRC mismatch: stored 0x"@ + text::hex(*expected as nat, 8)
                    + ", computed 0x"@ + text::hex(*computed as nat, 8)
            },
            FirmwareError::AppTooLarge { size } => {
                "APP firmware is too large for the vendor u32 format: "@
                    + text::decimal(*size as nat) + " bytes"@
            },
            FirmwareError::PackageTooLarge { size } => {
                "APP transfer package is too large for 32-bit firmware offsets: "@
                    + text::decimal(*size as nat) + " bytes"@
            },
        }
    }

    /// The message of this error.
    pub fn message(&self) -> (text: String)
        ensures
            text@ == self.message_spec(),
    {
        match self {
            FirmwareError::BlobTooShort { size } => {
                let mut out: String = "firmware blob is too short: ".to_owned();
                text::push_decimal(&mut out, *size as u64);
                out.append(" bytes");
                out
            },
            FirmwareError::PrefixOutOfBounds { prefix_size, blob_size } => {
                let mut out: String =
                    "firmware metadata prefix extends past blob: prefix size ".to_owned();
                text::push_decimal(&mut out, *prefix_size as u64);
                out.append(", blob size ");
                text::push_decimal(&mut out, *blob_size as u64);
                out
            },
            FirmwareError::EmptyApp => "firmware blob contains no APP payload".to_owned(),
            FirmwareError::BlobCrcMismatch { expected, computed } => {
                let mut out: String = "firmware blob CRC mismatch: stored 0x".to_owned();
                text::push_hex(&mut out, *expected as u64, 8);
                out.append(", computed 0x");
                text::push_hex(&mut out, *computed as u64, 8);
                out
            },
            FirmwareError::AppTooLarge { size } => {
                let mut out: String =
                    "APP firmware is too large for the vendor u32 format: ".to_owned();
                text::push_decimal(&mut out, *size as u64);
                out.append(" bytes");
                out
            },
            FirmwareError::PackageTooLarge { size } => {
                let mut out: String =
                    "APP transfer package is too large for 32-bit firmware offsets: ".to_owned();
                text::push_decimal(&mut out, *size as u64);
                out.append(" bytes");
                out
            },
        }
    }
}

impl WriteAppTransferError<String> {
    pub open spec fn message_spec(&self) -> Seq<char> {
        match self {
            WriteAppTransferError::Transport(error) => "firmware transport error: "@ + error@,
            WriteAppTransferError::MalformedFirmwareCheckResponse { payload_len } => {
                "malformed F4 completion: expected exactly one result byte, received "@
                    + text::decimal(*payload_len as nat)
            },
            WriteAppTransferError::FirmwareCheckRejected { result } => {
                "firmware F4 check rejected the APP package with result 0x"@ + text::hex(
                    *result as nat,
                    2,
                )
            },
        }
    }

    /// The message of this error over a transport whose errors are texts.
    pub fn message(&self) -> (text: String)
        ensures
            text@ == self.message_spec(),
    {
        match self {
            WriteAppTransferError::Transport(error) => {
                let mut out: String = "firmware transport error: ".to_owned();
                out.append(error.as_str());
                out
            },
            WriteAppTransferError::MalformedFirmwareCheckResponse { payload_len } => {
                let mut out: String =
                    "malformed F4 completion: expected exactly one result byte, received "
                    .to_owned();
                text::push_decimal(&mut out, *payload_len as u64);
                out
            },
            WriteAppTransferError::FirmwareCheckRejected { result } => {
                let mut out: String =
                    "firmware F4 check rejected the APP package with result 0x".to_owned();
                text::push_hex(&mut out, *result as u64, 2);
                out
            },
        }
    }
}

/// The blob of an APP and its metadata: the length of the metadata in one byte,
/// the metadata, the APP, and the CRC of all of it.
pub open spec fn blob_bytes(metadata: Seq<u8>, app: Seq<u8>) -> Seq<u8> {
    let covered = seq![metadata.len() as u8] + metadata + app;
    covered + bytes::le32(crc32_mpeg2_spec(covered))
}

/// A blob that was put together is accepted, and gives back its metadata and its
/// APP.
pub proof fn lemma_blob_round_trip(metadata: Seq<u8>, app: Seq<u8>)
    requires
        metadata.len() <= u8::MAX,
        app.len() > 0,
    ensures
        blob_error(blob_bytes(metadata, app)) is None,
        blob_bytes(metadata, app).subrange(1, blob_prefix_size(blob_bytes(metadata, app)))
            == metadata,
        blob_app(blob_bytes(metadata, app)) == app,
{
    let covered = seq![metadata.len() as u8] + metadata + app;
    let raw = blob_bytes(metadata, app);
    assert(raw.take(blob_crc_at(raw)) =~= covered);
    assert(raw.subrange(blob_crc_at(raw), blob_crc_at(raw) + 4) =~= bytes::le32(
        crc32_mpeg2_spec(covered),
    ));
    bytes::lemma_le32_round_trip(crc32_mpeg2_spec(covered), raw, blob_crc_at(raw));
    assert(raw.subrange(1, blob_prefix_size(raw)) =~= metadata);
    assert(blob_app(raw) =~= app);
}

proof fn lemma_crc32_shifts_differ(a: u32, b: u32, n: nat)
    requires
        a != b,
    ensures
        crc32_shifts(a, n) != crc32_shifts(b, n),
    decreases n,
{
    if n > 0 {
        lemma_crc32_shifts_differ(a, b, (n - 1) as nat);
        let x = crc32_shifts(a, (n - 1) as nat);
        let y = crc32_shifts(b, (n - 1) as nat);
        assert(x != y ==> (if x & 0x8000_0000u32 != 0 {
            (x << 1u32) ^ 0x04c1_1db7u32
        } else {
            x << 1u32
        }) != (if y & 0x8000_0000u32 != 0 {
            (y << 1u32) ^ 0x04c1_1db7u32
        } else {
            y << 1u32
        })) by (bit_vector);
    }
}

/// A CRC tells apart any two byte strings that differ in one place.
pub proof fn lemma_crc32_detects_one_byte(a: Seq<u8>, b: Seq<u8>, at: int)
    requires
        a.len() == b.len(),
        0 <= at < a.len(),
        a[at] != b[at],
        forall|k: int| 0 <= k < a.len() && k != at ==> #[trigger] a[k] == b[k],
    ensures
        crc32_mpeg2_spec(a) != crc32_mpeg2_spec(b),
    decreases a.len(),
{
    let x = crc32_mpeg2_spec(a.drop_last());
    let y = crc32_mpeg2_spec(b.drop_last());
    let p = a.last();
    let q = b.last();
    if at == a.len() - 1 {
        assert(a.drop_last() =~= b.drop_last());
        assert(p != q ==> x ^ ((p as u32) << 24u32) != x ^ ((q as u32) << 24u32)) by (bit_vector);
    } else {
        lemma_crc32_detects_one_byte(a.drop_last(), b.drop_last(), at);
        assert(x != y ==> x ^ ((p as u32) << 24u32) != y ^ ((p as u32) << 24u32)) by (bit_vector);
    }
    lemma_crc32_shifts_differ(x ^ ((p as u32) << 24u32), y ^ ((q as u32) << 24u32), 8);
}

/// Every byte of a blob after its length byte is guarded: an accepted blob is
/// refused once any single one has changed.
pub proof fn lemma_blob_detects_one_byte(raw: Seq<u8>, other: Seq<u8>, at: int)
    requires
        raw.len() == other.len(),
        blob_error(raw) is None,
        0 < at < raw.len(),
        raw[at] != other[at],
        forall|k: int| 0 <= k < raw.len() && k != at ==> #[trigger] raw[k] == other[k],
    ensures
        blob_error(other) is Some,
{
    let end = raw.len() - 4;
    assert(raw[0] == other[0]);
    if at < end {
        lemma_crc32_detects_one_byte(raw.take(end), other.take(end), at);
        assert(raw[end] == other[end] && raw[end + 1] == other[end + 1] && raw[end + 2] == other[end
            + 2] && raw[end + 3] == other[end + 3]);
    } else {
        assert(raw.take(end) =~= other.take(end));
        if at != end {
            assert(raw[end] == other[end]);
        }
        if at != end + 1 {
            assert(raw[end + 1] == other[end + 1]);
        }
        if at != end + 2 {
            assert(raw[end + 2] == other[end + 2]);
        }
        if at != end + 3 {
            assert(raw[end + 3] == other[end + 3]);
        }
    }
}

/// The header of a package guards itself: its first word is the CRC of the two
/// words behind it.
pub proof fn lemma_header_guards_itself(app: Seq<u8>)
    requires
        app.len() <= u32::MAX,
    ensures
        bytes::le32_at(package_bytes(app), 0) == crc32_mpeg2_spec(
            package_bytes(app).subrange(4, 12),
        ),
{
    let package = package_bytes(app);
    lemma_package_header(app);
    assert(package.subrange(4, 12) =~= bytes::le32(app.len() as u32) + bytes::le32(
        crc32_mpeg2_spec(app),
    ));
}

/// A write command says where its data goes, how much there is, and of what kind,
/// in three words in front of the data; no chunk is empty or longer than allowed,
/// and each starts where the one before it ends.
pub proof fn lemma_write_command(package: Seq<u8>, i: int)
    requires
        package.len() <= u32::MAX,
        0 <= i < chunk_count(package.len()),
    ensures
        ({
            let payload = package_payload(package, i);
            let size = payload.len() - 12;
            &&& bytes::le32_at(payload, 0) == i * F0_MAX_CHUNK_DATA
            &&& bytes::le32_at(payload, 4) == size
            &&& bytes::le32_at(payload, 8) == APP_FIRMWARE_TYPE
            &&& 0 < size <= F0_MAX_CHUNK_DATA
            &&& i + 1 < chunk_count(package.len()) ==> size == F0_MAX_CHUNK_DATA
            &&& forall|k: int|
                0 <= k < size ==> #[trigger] payload[12 + k] == package[i * F0_MAX_CHUNK_DATA + k]
        }),
{
    let data = chunk_data(package, i);
    let payload = package_payload(package, i);
    let offset = (i * F0_MAX_CHUNK_DATA) as u32;
    assert(payload.subrange(0, 4) =~= bytes::le32(offset));
    assert(payload.subrange(4, 8) =~= bytes::le32(data.len() as u32));
    assert(payload.subrange(8, 12) =~= bytes::le32(APP_FIRMWARE_TYPE));
    bytes::lemma_le32_round_trip(offset, payload, 0);
    bytes::lemma_le32_round_trip(data.len() as u32, payload, 4);
    bytes::lemma_le32_round_trip(APP_FIRMWARE_TYPE, payload, 8);
}

} // verus!
