use loadstore_chip::codec::{add_with_carries, sign_extend, u32_from_le_bytes, u32_to_le_bytes,
    zero_extend, MemAccessSize};
use loadstore_chip::constraints::{field_add, field_mul, field_one_minus};
use loadstore_chip::memory::{Memory, VMError};
use loadstore_chip::FIELD_MODULUS;

#[test]
fn test_le_bytes_roundtrip() {
    assert_eq!(u32_to_le_bytes(0x81008), [0x08, 0x10, 0x08, 0x00]);
    assert_eq!(u32_from_le_bytes(&[0x08, 0x10, 0x08, 0x00]), 0x81008);
    assert_eq!(u32_to_le_bytes(0xDEADBEEF), [0xEF, 0xBE, 0xAD, 0xDE]);
    assert_eq!(u32_from_le_bytes(&u32_to_le_bytes(u32::MAX)), u32::MAX);
}

#[test]
fn test_add_with_carries_values() {
    let (sum, carry) = add_with_carries([0xFF, 0xFF, 0xFF, 0xFF], [0x01, 0x00, 0x00, 0x00]);
    assert_eq!(sum, [0x00, 0x00, 0x00, 0x00]);
    assert_eq!(carry, [1, 1, 1, 1]);

    let (sum, carry) = add_with_carries(u32_to_le_bytes(0x81008), u32_to_le_bytes(10));
    assert_eq!(u32_from_le_bytes(&sum), 0x81012);
    assert_eq!(carry, [0, 0, 0, 0]);

    let (sum, carry) = add_with_carries([0x80, 0x00, 0x00, 0x00], [0x80, 0xFF, 0x00, 0x00]);
    assert_eq!(sum, [0x00, 0x00, 0x01, 0x00]);
    assert_eq!(carry, [1, 1, 0, 0]);
}

#[test]
fn test_sign_extend_values() {
    assert_eq!(sign_extend(0x80, MemAccessSize::Byte), 0xFFFFFF80);
    assert_eq!(sign_extend(0x7F, MemAccessSize::Byte), 0x7F);
    assert_eq!(sign_extend(0x8000, MemAccessSize::HalfWord), 0xFFFF8000);
    assert_eq!(sign_extend(0x0080, MemAccessSize::HalfWord), 0x80);
    assert_eq!(sign_extend(0x80000000, MemAccessSize::Word), 0x80000000);
}

#[test]
fn test_zero_extend_values() {
    assert_eq!(zero_extend(0x80, MemAccessSize::Byte), 0x00000080);
    assert_eq!(zero_extend(0xFFFF_FF80, MemAccessSize::Byte), 0x80);
    assert_eq!(zero_extend(0xFFFF_8000, MemAccessSize::HalfWord), 0x8000);
    assert_eq!(zero_extend(0xDEADBEEF, MemAccessSize::Word), 0xDEADBEEF);
}

#[test]
fn test_field_ops() {
    assert_eq!(field_add(FIELD_MODULUS - 1, 1), 0);
    assert_eq!(field_add(5, 7), 12);
    assert_eq!(field_mul(3, 5), 15);
    assert_eq!(field_mul(FIELD_MODULUS - 1, 2), FIELD_MODULUS - 2);
    assert_eq!(field_one_minus(1), 0);
    assert_eq!(field_one_minus(0), 1);
    assert_eq!(field_one_minus(2), FIELD_MODULUS - 1);
}

/// A load of matching width recovers what a store wrote, for every width.
#[test]
fn test_memory_write_read_roundtrip() {
    let mut memory = Memory::default();
    memory.write(0x100, MemAccessSize::Byte, 0xAB).unwrap();
    assert_eq!(memory.read(0x100, MemAccessSize::Byte).unwrap(), 0xAB);

    memory.write(0x200, MemAccessSize::HalfWord, 0xBEEF).unwrap();
    assert_eq!(memory.read(0x200, MemAccessSize::HalfWord).unwrap(), 0xBEEF);

    memory.write(0x300, MemAccessSize::Word, 0xDEADBEEF).unwrap();
    assert_eq!(memory.read(0x300, MemAccessSize::Word).unwrap(), 0xDEADBEEF);

    // Values are masked to the access width.
    memory.write(0x400, MemAccessSize::Byte, 0xDEADBEEF).unwrap();
    assert_eq!(memory.read(0x400, MemAccessSize::Byte).unwrap(), 0xEF);

    // Unaligned reads are rejected.
    assert_eq!(
        memory.read(0x201, MemAccessSize::HalfWord),
        Err(VMError::UnalignedMemoryRead(0x201))
    );
}
