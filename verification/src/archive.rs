//! Stored (uncompressed) ZIP archive assembly and the CRC-32 checksum it needs.
use vstd::prelude::*;
use vstd::utf8::encode_utf8;
use vstd::string::StringExecFns;

verus! {

/// The reversed IEEE 802.3 polynomial used by ZIP's CRC-32.
pub const CRC32_POLYNOMIAL: u32 = 0xedb8_8320u32;

/// One bit of the reflected CRC-32 shift register.
pub open spec fn crc32_bit_step(crc: u32) -> u32 {
    if crc & 1u32 != 0u32 {
        (crc >> 1u32) ^ CRC32_POLYNOMIAL
    } else {
        crc >> 1u32
    }
}

/// The shift register after `n` bit steps.
pub open spec fn crc32_bit_steps(crc: u32, n: nat) -> u32
    decreases n,
{
    if n == 0 {
        crc
    } else {
        crc32_bit_steps(crc32_bit_step(crc), (n - 1) as nat)
    }
}

/// The shift register after absorbing one byte.
pub open spec fn crc32_absorb_byte(crc: u32, byte: u8) -> u32 {
    crc32_bit_steps(crc ^ (byte as u32), 8)
}

/// The shift register after absorbing `bytes`, starting from all ones.
pub open spec fn crc32_register(bytes: Seq<u8>) -> u32
    decreases bytes.len(),
{
    if bytes.len() == 0 {
        0xffff_ffffu32
    } else {
        crc32_absorb_byte(crc32_register(bytes.drop_last()), bytes.last())
    }
}

/// CRC-32 (IEEE) of `bytes`: the final register, inverted.
pub open spec fn crc32_spec(bytes: Seq<u8>) -> u32 {
    !crc32_register(bytes)
}

/// Little-endian encoding of a 16-bit value.
pub open spec fn u16_le(value: u16) -> Seq<u8> {
    seq![(value % 256) as u8, (value / 256) as u8]
}

/// Little-endian encoding of a 32-bit value.
pub open spec fn u32_le(value: u32) -> Seq<u8> {
    seq![
        (value % 256) as u8,
        ((value / 256) % 256) as u8,
        ((value / 65536) % 256) as u8,
        (value / 16777216) as u8,
    ]
}

/// Computes the CRC-32 (IEEE) checksum of `bytes`, bit by bit.
pub fn crc32_ieee(bytes: &[u8]) -> (crc: u32)
    ensures
        crc == crc32_spec(bytes@),
{
    let mut crc: u32 = 0xffff_ffffu32;
    let mut i: usize = 0;
    while i < bytes.len()
        invariant
            i <= bytes@.len(),
            crc == crc32_register(bytes@.subrange(0, i as int)),
        decreases bytes@.len() - i,
    {
        let byte = bytes[i];
        crc = crc ^ (byte as u32);
        let ghost start = crc;
        let mut bit: usize = 0;
        while bit < 8
            invariant
                bit <= 8,
                crc == crc32_bit_steps(start, bit as nat),
            decreases 8 - bit,
        {
            proof {
                lemma_crc32_bit_steps_unfold_last(start, bit as nat);
            }
            let lsb = crc & 1u32;
            crc = crc >> 1u32;
            if lsb != 0u32 {
                crc = crc ^ CRC32_POLYNOMIAL;
            }
            bit = bit + 1;
        }
        proof {
            let prefix = bytes@.subrange(0, i as int + 1);
            assert(prefix.drop_last() =~= bytes@.subrange(0, i as int));
        }
        i = i + 1;
    }
    proof {
        assert(bytes@.subrange(0, bytes@.len() as int) =~= bytes@);
    }
    !crc
}

proof fn lemma_crc32_bit_steps_unfold_last(crc: u32, n: nat)
    ensures
        crc32_bit_steps(crc, n + 1) == crc32_bit_step(crc32_bit_steps(crc, n)),
    decreases n,
{
    reveal_with_fuel(crc32_bit_steps, 2);
    if n > 0 {
        lemma_crc32_bit_steps_unfold_last(crc32_bit_step(crc), (n - 1) as nat);
    }
}

/// Appends the little-endian bytes of `value` to `buffer`.
pub fn push_u16_le(buffer: &mut Vec<u8>, value: u16)
    ensures
        final(buffer)@ == old(buffer)@ + u16_le(value),
{
    buffer.push((value % 256) as u8);
    buffer.push((value / 256) as u8);
    proof {
        assert(final(buffer)@ =~= old(buffer)@ + u16_le(value));
    }
}

/// Appends the little-endian bytes of `value` to `buffer`.
pub fn push_u32_le(buffer: &mut Vec<u8>, value: u32)
    ensures
        final(buffer)@ == old(buffer)@ + u32_le(value),
{
    buffer.push((value % 256) as u8);
    buffer.push(((value / 256) % 256) as u8);
    buffer.push(((value / 65536) % 256) as u8);
    buffer.push((value / 16777216) as u8);
    proof {
        assert(final(buffer)@ =~= old(buffer)@ + u32_le(value));
    }
}

} // verus!

verus! {

/// Appends all of `bytes` to `buffer`.
pub fn extend_bytes(buffer: &mut Vec<u8>, bytes: &[u8])
    ensures
        final(buffer)@ == old(buffer)@ + bytes@,
{
    buffer.extend_from_slice(bytes);
    proof {
        assert(final(buffer)@ =~= old(buffer)@ + bytes@);
    }
}

} // verus!

verus! {

/// One file to be stored, uncompressed, in a ZIP archive.
pub struct StoredArchiveEntry {
    pub file_name: String,
    pub bytes: Vec<u8>,
}

/// Why a stored ZIP archive could not be assembled in the classic (non-ZIP64) format.
pub enum ZipArchiveError {
    /// The entry's UTF-8 name is longer than 65535 bytes.
    EntryNameTooLong(String),
    /// The entry's contents are larger than 4 GiB - 1 bytes.
    EntryTooLarge(String),
    /// An offset into the archive does not fit in 32 bits.
    ArchiveTooLarge,
    /// The central directory is larger than 4 GiB - 1 bytes.
    CentralDirectoryTooLarge,
    /// There are more than 65535 entries.
    TooManyEntries,
}

/// The ghost form of a [`ZipArchiveError`].
pub enum ZipArchiveFailure {
    EntryNameTooLong(Seq<char>),
    EntryTooLarge(Seq<char>),
    ArchiveTooLarge,
    CentralDirectoryTooLarge,
    TooManyEntries,
}

impl View for ZipArchiveError {
    type V = ZipArchiveFailure;

    open spec fn view(&self) -> ZipArchiveFailure {
        match self {
            ZipArchiveError::EntryNameTooLong(name) => ZipArchiveFailure::EntryNameTooLong(name@),
            ZipArchiveError::EntryTooLarge(name) => ZipArchiveFailure::EntryTooLarge(name@),
            ZipArchiveError::ArchiveTooLarge => ZipArchiveFailure::ArchiveTooLarge,
            ZipArchiveError::CentralDirectoryTooLarge => ZipArchiveFailure::CentralDirectoryTooLarge,
            ZipArchiveError::TooManyEntries => ZipArchiveFailure::TooManyEntries,
        }
    }
}

/// The human-readable description of a ZIP assembly failure.
pub open spec fn zip_failure_message(f: ZipArchiveFailure) -> Seq<char> {
    match f {
        ZipArchiveFailure::EntryNameTooLong(name) => "zip entry name too long: "@ + name,
        ZipArchiveFailure::EntryTooLarge(name) => "zip entry too large: "@ + name,
        ZipArchiveFailure::ArchiveTooLarge => "zip archive too large for classic zip format"@,
        ZipArchiveFailure::CentralDirectoryTooLarge => "zip central directory too large for classic zip format"@,
        ZipArchiveFailure::TooManyEntries => "too many zip entries for classic zip format"@,
    }
}

impl ZipArchiveError {
    /// A human-readable description of the failure.
    pub fn message(&self) -> (text: String)
        ensures
            text@ == zip_failure_message(self@),
    {
        match self {
            ZipArchiveError::EntryNameTooLong(name) => {
                let mut text = String::from_str("zip entry name too long: ");
                text.append(name.as_str());
                text
            },
            ZipArchiveError::EntryTooLarge(name) => {
                let mut text = String::from_str("zip entry too large: ");
                text.append(name.as_str());
                text
            },
            ZipArchiveError::ArchiveTooLarge => String::from_str(
                "zip archive too large for classic zip format",
            ),
            ZipArchiveError::CentralDirectoryTooLarge => String::from_str(
                "zip central directory too large for classic zip format",
            ),
            ZipArchiveError::TooManyEntries => String::from_str(
                "too many zip entries for classic zip format",
            ),
        }
    }
}

/// The UTF-8 bytes of an entry's name.
pub open spec fn entry_name_bytes(entry: StoredArchiveEntry) -> Seq<u8> {
    encode_utf8(entry.file_name@)
}

/// The local file header of a stored entry, followed by its name and contents.
#[verifier::opaque]
pub open spec fn zip_local_record(name: Seq<u8>, data: Seq<u8>) -> Seq<u8> {
    u32_le(0x0403_4b50) + u16_le(20) + u16_le(0) + u16_le(0) + u16_le(0) + u16_le(0) + u32_le(
        crc32_spec(data),
    ) + u32_le(data.len() as u32) + u32_le(data.len() as u32) + u16_le(name.len() as u16)
        + u16_le(0) + name + data
}

/// The central directory record of a stored entry whose local header starts at `offset`.
#[verifier::opaque]
pub open spec fn zip_central_record(name: Seq<u8>, data: Seq<u8>, offset: nat) -> Seq<u8> {
    u32_le(0x0201_4b50) + u16_le(20) + u16_le(20) + u16_le(0) + u16_le(0) + u16_le(0) + u16_le(0)
        + u32_le(crc32_spec(data)) + u32_le(data.len() as u32) + u32_le(data.len() as u32)
        + u16_le(name.len() as u16) + u16_le(0) + u16_le(0) + u16_le(0) + u16_le(0) + u32_le(0)
        + u32_le(offset as u32) + name
}

/// The local records of all entries, in order.
pub open spec fn zip_payload(entries: Seq<StoredArchiveEntry>) -> Seq<u8>
    decreases entries.len(),
{
    if entries.len() == 0 {
        Seq::empty()
    } else {
        zip_payload(entries.drop_last()) + zip_local_record(
            entry_name_bytes(entries.last()),
            entries.last().bytes@,
        )
    }
}

/// The central directory records of all entries, in order.
pub open spec fn zip_central_directory(entries: Seq<StoredArchiveEntry>) -> Seq<u8>
    decreases entries.len(),
{
    if entries.len() == 0 {
        Seq::empty()
    } else {
        zip_central_directory(entries.drop_last()) + zip_central_record(
            entry_name_bytes(entries.last()),
            entries.last().bytes@,
            zip_payload(entries.drop_last()).len(),
        )
    }
}

/// The end-of-central-directory record.
pub open spec fn zip_end_record(count: nat, directory_size: nat, directory_offset: nat) -> Seq<
    u8,
> {
    u32_le(0x0605_4b50) + u16_le(0) + u16_le(0) + u16_le(count as u16) + u16_le(count as u16)
        + u32_le(directory_size as u32) + u32_le(directory_offset as u32) + u16_le(0)
}

/// The failure raised by an entry whose local header would start at `offset`, if any.
pub open spec fn zip_entry_failure(entry: StoredArchiveEntry, offset: nat) -> Option<
    ZipArchiveFailure,
> {
    if entry_name_bytes(entry).len() > 0xffff {
        Some(ZipArchiveFailure::EntryNameTooLong(entry.file_name@))
    } else if entry.bytes@.len() > 0xffff_ffff {
        Some(ZipArchiveFailure::EntryTooLarge(entry.file_name@))
    } else if offset > 0xffff_ffff {
        Some(ZipArchiveFailure::ArchiveTooLarge)
    } else {
        None
    }
}

/// The first failure raised while walking the entries in order, if any.
pub open spec fn zip_entries_failure(entries: Seq<StoredArchiveEntry>) -> Option<
    ZipArchiveFailure,
>
    decreases entries.len(),
{
    if entries.len() == 0 {
        None
    } else {
        match zip_entries_failure(entries.drop_last()) {
            Some(failure) => Some(failure),
            None => zip_entry_failure(entries.last(), zip_payload(entries.drop_last()).len()),
        }
    }
}

/// The outcome of assembling a stored ZIP archive from `entries`.
pub open spec fn stored_zip_archive(entries: Seq<StoredArchiveEntry>) -> Result<
    Seq<u8>,
    ZipArchiveFailure,
> {
    let payload = zip_payload(entries);
    let directory = zip_central_directory(entries);
    match zip_entries_failure(entries) {
        Some(failure) => Err(failure),
        None => if payload.len() > 0xffff_ffff {
            Err(ZipArchiveFailure::ArchiveTooLarge)
        } else if directory.len() > 0xffff_ffff {
            Err(ZipArchiveFailure::CentralDirectoryTooLarge)
        } else if entries.len() > 0xffff {
            Err(ZipArchiveFailure::TooManyEntries)
        } else {
            Ok(payload + directory + zip_end_record(entries.len(), directory.len(), payload.len()))
        },
    }
}

proof fn lemma_zip_failure_persists(entries: Seq<StoredArchiveEntry>, k: int)
    requires
        0 <= k <= entries.len(),
        zip_entries_failure(entries.take(k)) is Some,
    ensures
        zip_entries_failure(entries) == zip_entries_failure(entries.take(k)),
    decreases entries.len() - k,
{
    if k < entries.len() {
        assert(entries.take(k + 1).drop_last() =~= entries.take(k));
        lemma_zip_failure_persists(entries, k + 1);
    } else {
        assert(entries.take(k) =~= entries);
    }
}

/// Appends the local record of one stored entry.
fn append_local_record(buffer: &mut Vec<u8>, name: &[u8], data: &[u8], crc32: u32)
    requires
        name@.len() <= 0xffff,
        data@.len() <= 0xffff_ffff,
        crc32 == crc32_spec(data@),
    ensures
        final(buffer)@ == old(buffer)@ + zip_local_record(name@, data@),
{
    let name_len = name.len() as u16;
    let size = data.len() as u32;
    push_u32_le(buffer, 0x0403_4b50);
    push_u16_le(buffer, 20);
    push_u16_le(buffer, 0);
    push_u16_le(buffer, 0);
    push_u16_le(buffer, 0);
    push_u16_le(buffer, 0);
    push_u32_le(buffer, crc32);
    push_u32_le(buffer, size);
    push_u32_le(buffer, size);
    push_u16_le(buffer, name_len);
    push_u16_le(buffer, 0);
    extend_bytes(buffer, name);
    extend_bytes(buffer, data);
    proof {
        reveal(zip_local_record);
        assert(final(buffer)@ =~= old(buffer)@ + zip_local_record(name@, data@));
    }
}

/// Appends the central directory record of one stored entry.
fn append_central_record(buffer: &mut Vec<u8>, name: &[u8], data: &[u8], crc32: u32, offset: u32)
    requires
        name@.len() <= 0xffff,
        data@.len() <= 0xffff_ffff,
        crc32 == crc32_spec(data@),
    ensures
        final(buffer)@ == old(buffer)@ + zip_central_record(name@, data@, offset as nat),
{
    let name_len = name.len() as u16;
    let size = data.len() as u32;
    push_u32_le(buffer, 0x0201_4b50);
    push_u16_le(buffer, 20);
    push_u16_le(buffer, 20);
    push_u16_le(buffer, 0);
    push_u16_le(buffer, 0);
    push_u16_le(buffer, 0);
    push_u16_le(buffer, 0);
    push_u32_le(buffer, crc32);
    push_u32_le(buffer, size);
    push_u32_le(buffer, size);
    push_u16_le(buffer, name_len);
    push_u16_le(buffer, 0);
    push_u16_le(buffer, 0);
    push_u16_le(buffer, 0);
    push_u16_le(buffer, 0);
    push_u32_le(buffer, 0);
    push_u32_le(buffer, offset);
    extend_bytes(buffer, name);
    proof {
        reveal(zip_central_record);
        assert(final(buffer)@ =~= old(buffer)@ + zip_central_record(name@, data@, offset as nat));
    }
}

/// Assembles a classic ZIP archive that stores every entry uncompressed, in order:
/// the local records, then the central directory, then the end record.
pub fn build_stored_zip_archive(entries: Vec<StoredArchiveEntry>) -> (result: Result<
    Vec<u8>,
    ZipArchiveError,
>)
    ensures
        match result {
            Ok(bytes) => stored_zip_archive(entries@) == Ok::<Seq<u8>, ZipArchiveFailure>(
                bytes@,
            ),
            Err(error) => stored_zip_archive(entries@) == Err::<Seq<u8>, ZipArchiveFailure>(
                error@,
            ),
        },
{
    let mut payload: Vec<u8> = Vec::new();
    let mut central_directory: Vec<u8> = Vec::new();
    let mut index: usize = 0;
    while index < entries.len()
        invariant
            index <= entries@.len(),
            zip_entries_failure(entries@.take(index as int)) is None,
            payload@ == zip_payload(entries@.take(index as int)),
            central_directory@ == zip_central_directory(entries@.take(index as int)),
        decreases entries@.len() - index,
    {
        let entry = &entries[index];
        let ghost prefix = entries@.take(index as int);
        let ghost next = entries@.take(index as int + 1);
        proof {
            assert(next.drop_last() =~= prefix);
            assert(next.last() == entries@[index as int]);
        }
        let name_bytes = entry.file_name.as_str().as_bytes();
        proof {
            if zip_entries_failure(next) is Some {
                lemma_zip_failure_persists(entries@, index as int + 1);
            }
        }
        if name_bytes.len() > 0xffff {
            return Err(ZipArchiveError::EntryNameTooLong(entry.file_name.clone()));
        }
        if entry.bytes.len() as u64 > 0xffff_ffffu64 {
            return Err(ZipArchiveError::EntryTooLarge(entry.file_name.clone()));
        }
        if payload.len() as u64 > 0xffff_ffffu64 {
            return Err(ZipArchiveError::ArchiveTooLarge);
        }
        let local_header_offset = payload.len() as u32;
        let crc32 = crc32_ieee(entry.bytes.as_slice());

        append_local_record(&mut payload, name_bytes, entry.bytes.as_slice(), crc32);
        append_central_record(
            &mut central_directory,
            name_bytes,
            entry.bytes.as_slice(),
            crc32,
            local_header_offset,
        );
        proof {
            assert(payload@ =~= zip_payload(next));
            assert(central_directory@ =~= zip_central_directory(next));
        }
        index = index + 1;
    }
    proof {
        assert(entries@.take(entries@.len() as int) =~= entries@);
    }
    if payload.len() as u64 > 0xffff_ffffu64 {
        return Err(ZipArchiveError::ArchiveTooLarge);
    }
    if central_directory.len() as u64 > 0xffff_ffffu64 {
        return Err(ZipArchiveError::CentralDirectoryTooLarge);
    }
    if entries.len() > 0xffff {
        return Err(ZipArchiveError::TooManyEntries);
    }
    let central_directory_offset = payload.len() as u32;
    let central_directory_size = central_directory.len() as u32;
    let entries_count = entries.len() as u16;

    extend_bytes(&mut payload, central_directory.as_slice());
    push_u32_le(&mut payload, 0x0605_4b50);
    push_u16_le(&mut payload, 0);
    push_u16_le(&mut payload, 0);
    push_u16_le(&mut payload, entries_count);
    push_u16_le(&mut payload, entries_count);
    push_u32_le(&mut payload, central_directory_size);
    push_u32_le(&mut payload, central_directory_offset);
    push_u16_le(&mut payload, 0);
    proof {
        assert(payload@ =~= zip_payload(entries@) + zip_central_directory(entries@)
            + zip_end_record(entries@.len(), zip_central_directory(entries@).len(), zip_payload(entries@).len()));
    }
    Ok(payload)
}

} // verus!
