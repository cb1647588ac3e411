use vstd::prelude::*;

verus! {

/// The number of bytes of a boot sector that hold the program.
pub const CONTENT_SIZE: usize = 510;

/// The number of bytes of a boot sector.
pub const SECTOR_SIZE: usize = 512;

/// The two bytes that end a boot sector, in the order in which they are
/// written.
pub open spec fn signature() -> Seq<u8> {
    seq![0x55u8, 0xAAu8]
}

/// `count` zero bytes; none where `count` is not positive.
pub open spec fn zeros(count: int) -> Seq<u8> {
    Seq::new(
        if count > 0 {
            count as nat
        } else {
            0
        },
        |i: int| 0u8,
    )
}

/// The image of a program: its bytes, zero bytes up to a length of 510 where
/// the program is shorter, and the signature. A program of more than 510
/// bytes is not cut: its image is longer than a sector.
pub open spec fn boot_image(content: Seq<u8>) -> Seq<u8> {
    content + zeros(CONTENT_SIZE - content.len()) + signature()
}

/// The image of a program that fits is exactly one sector, begins with the
/// program, is zero from there to the signature, and ends with the signature.
pub proof fn lemma_boot_image_is_a_sector(content: Seq<u8>)
    requires
        content.len() <= CONTENT_SIZE,
    ensures
        boot_image(content).len() == SECTOR_SIZE,
        boot_image(content).subrange(0, content.len() as int) == content,
        forall|i: int| content.len() <= i < CONTENT_SIZE ==> boot_image(content)[i] == 0,
        boot_image(content)[510] == 0x55,
        boot_image(content)[511] == 0xAA,
{
}

/// The image of the empty program is 510 zero bytes and the signature.
pub proof fn lemma_empty_boot_image()
    ensures
        boot_image(Seq::empty()) == zeros(510) + signature(),
        boot_image(Seq::empty()).len() == SECTOR_SIZE,
{
}

/// The image of a program that does not fit is the program and the
/// signature, with no padding.
pub proof fn lemma_oversized_boot_image(content: Seq<u8>)
    requires
        content.len() > CONTENT_SIZE,
    ensures
        boot_image(content) == content + signature(),
        boot_image(content).len() == content.len() + 2,
{
}

/// Builds the boot sector image of a program: the program, zero bytes up
/// to a length of 510 where the program is shorter, and the signature
/// `0x55, 0xAA`. An image of a program of at most 510 bytes is exactly one
/// sector of 512 bytes.
pub fn create_binary(content: Vec<u8>) -> (image: Vec<u8>)
    ensures
        image@ == boot_image(content@),
        content@.len() <= CONTENT_SIZE ==> image@.len() == SECTOR_SIZE,
        content@.len() > CONTENT_SIZE ==> image@.len() == content@.len() + 2,
        image@.subrange(0, content@.len() as int) == content@,
        forall|i: int| content@.len() <= i < image@.len() - 2 ==> image@[i] == 0,
        image@[image@.len() - 2] == 0x55,
        image@[image@.len() - 1] == 0xAA,
{
    let mut image = content;
    while image.len() < CONTENT_SIZE
        invariant
            image@ == content@ + zeros(image@.len() - content@.len()),
            content@.len() <= image@.len(),
            image@.len() <= CONTENT_SIZE || image@.len() == content@.len(),
        decreases CONTENT_SIZE - image@.len(),
    {
        image.push(0);
    }
    image.push(0x55);
    image.push(0xAA);
    proof {
        assert(image@.subrange(0, content@.len() as int) =~= content@);
    }
    image
}

} // verus!
