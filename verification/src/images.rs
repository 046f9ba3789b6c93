//! Guest images made from decoded resources.
//!
//! A guest image is a header of twelve bytes: the address of its pixels, its width and height
//! as halfwords, and a byte that marks it as in use. Decoding itself is the host's work: the
//! machine hands out the bytes to decode and takes the decoded pixels back.

use vstd::prelude::*;

use crate::machine::{MachineState, NicaiMachine};
use crate::memory::{
    address_at, bytes_from, law_word_read_back, offset, read16, read32, read8, span_holds, write16,
    write32, write8,
};
use crate::surface::{
    address_of_pixel, ink_until, law_painted_pixel_reads_back, lemma_paint_nothing,
    lemma_paint_pixel, lemma_same_ink, pack_color, painted, pitch_of, pixel_address, rgb565,
    row_pitch,
};

verus! {

/// A decoded image: four bytes for each pixel, red, green, blue and alpha.
#[derive(Debug)]
pub struct DecodedImage {
    pub width: u32,
    pub height: u32,
    pub data: Vec<u8>,
}

/// What a decoded image holds.
#[verifier::ext_equal]
pub struct Picture {
    pub width: u32,
    pub height: u32,
    pub data: Seq<u8>,
}

impl View for DecodedImage {
    type V = Picture;

    open spec fn view(&self) -> Picture {
        Picture { width: self.width, height: self.height, data: self.data@ }
    }
}

/// Size of a guest image's header.
pub const HEADER_SIZE: u32 = 12;

impl Picture {
    /// The picture is not empty and its sides fit into the header.
    pub open spec fn has_valid_size(self) -> bool {
        0 < self.width <= 65535 && 0 < self.height <= 65535
    }

    /// How much heap the pixels take, as far as a request can say.
    pub open spec fn pixel_bytes(self) -> u32 {
        let bytes = pitch_of(self.width as int) * self.height * 2;
        if bytes <= u32::MAX {
            bytes as u32
        } else {
            u32::MAX
        }
    }

    /// There are four bytes for each pixel.
    pub open spec fn is_complete(self) -> bool {
        self.data.len() >= self.width * self.height * 4
    }

    /// The colours of the picture.
    pub open spec fn ink(self) -> spec_fn(int, int) -> Option<u16> {
        |x: int, y: int|
            if 0 <= x < self.width && 0 <= y < self.height {
                let at = (y * self.width + x) * 4;
                Some(
                    rgb565(
                        self.data[at],
                        self.data[at + 1],
                        self.data[at + 2],
                        self.data[at + 3],
                    ),
                )
            } else {
                None
            }
    }
}

impl DecodedImage {
    /// Tells whether the image is not empty and its sides fit into a header.
    pub fn has_storable_size(&self) -> (valid: bool)
        ensures
            valid == self@.has_valid_size(),
    {
        self.width != 0 && self.height != 0 && self.width <= 65535 && self.height <= 65535
    }

    /// How much heap the pixels take, as far as a request can say.
    pub fn storage_size(&self) -> (bytes: u32)
        requires
            self@.has_valid_size(),
        ensures
            bytes == self@.pixel_bytes(),
    {
        let pitch: u32 = row_pitch(self.width);
        proof {
            assert(0 < pitch * self.height <= 65536 * 65535) by (nonlinear_arith)
                requires
                    0 < pitch <= 65536,
                    0 < self.height <= 65535,
            ;
        }
        let bytes: u64 = pitch as u64 * self.height as u64 * 2;
        if bytes <= u32::MAX as u64 {
            bytes as u32
        } else {
            u32::MAX
        }
    }
}

/// Bytes that the host has to decode, what to call them in a message, and the header that the
/// image goes to; zero asks for a new one.
#[derive(Debug)]
pub struct ImageRequest {
    pub resource: Vec<u8>,
    pub name: String,
    pub output: u32,
}

/// What an image request holds.
#[verifier::ext_equal]
pub struct ImageJob {
    pub resource: Seq<u8>,
    pub name: Seq<char>,
    pub output: u32,
}

impl View for ImageRequest {
    type V = ImageJob;

    open spec fn view(&self) -> ImageJob {
        ImageJob { resource: self.resource@, name: self.name@, output: self.output }
    }
}

/// The first place from `start` on at which `value` stands.
pub open spec fn first_place(values: Seq<u32>, value: u32, start: int) -> Option<int>
    decreases values.len() - start,
{
    if start < 0 || start >= values.len() {
        None
    } else if values[start] == value {
        Some(start)
    } else {
        first_place(values, value, start + 1)
    }
}

/// Memory after an image header is written.
pub open spec fn header_written(
    m: Map<u32, u8>,
    image: u32,
    pixels: u32,
    width: u16,
    height: u16,
) -> Map<u32, u8> {
    let m = write32(m, image, pixels);
    let m = write16(m, offset(image, 4), width);
    let m = write16(m, offset(image, 6), height);
    write8(m, offset(image, 8), 1)
}

impl MachineState {
    /// What there is to decode for the resource at `index`.
    pub open spec fn resource_job(self, index: int, output: u32) -> Option<ImageJob> {
        if 0 <= index < self.resources.len() {
            Some(
                ImageJob {
                    resource: self.resources[index].data,
                    name: self.resources[index].name,
                    output,
                },
            )
        } else {
            None
        }
    }

    /// What there is to decode at a guest address: the resource that was loaded there, or else
    /// the heap block that starts there.
    pub open spec fn stream_job(self, source: u32, output: u32) -> Option<ImageJob> {
        if source == 0 {
            None
        } else {
            match first_place(self.resource_data, source, 0) {
                Some(index) => self.resource_job(index, output),
                None => match self.heap.block_size(source) {
                    Some(size) => if span_holds(self.spans, source, size as int) {
                        Some(
                            ImageJob {
                                resource: bytes_from(self.memory, source, size as nat),
                                name: "guest stream"@,
                                output,
                            },
                        )
                    } else {
                        None
                    },
                    None => None,
                },
            }
        }
    }

    /// Memory for the pixels of a picture is taken from the heap.
    pub open spec fn stores_pixels(self, picture: Picture) -> bool {
        picture.has_valid_size() && self.heap.has_room(picture.pixel_bytes())
    }

    /// The machine once the pixels of a picture are stored.
    pub open spec fn pixels_stored(self, picture: Picture) -> MachineState {
        let pixels = self.heap.next_block(picture.pixel_bytes());
        self.after_request(picture.pixel_bytes()).with_memory(
            painted(self.memory, pixels, pitch_of(picture.width as int), picture.ink()),
        )
    }

    /// The header that a picture gets; nothing where its pixels cannot be stored.
    pub open spec fn image_header(self, picture: Picture, output: u32) -> u32 {
        if !self.stores_pixels(picture) {
            0
        } else if output == 0 {
            self.pixels_stored(picture).heap.next_block(HEADER_SIZE)
        } else {
            output
        }
    }

    /// The machine after a guest image is made of a picture.
    pub open spec fn image_created(self, picture: Picture, output: u32) -> MachineState {
        if !self.stores_pixels(picture) {
            self
        } else {
            let stored = self.pixels_stored(picture);
            let ready = if output == 0 {
                stored.after_request(HEADER_SIZE)
            } else {
                stored
            };
            ready.with_memory(
                header_written(
                    ready.memory,
                    self.image_header(picture, output),
                    self.heap.next_block(picture.pixel_bytes()),
                    picture.width as u16,
                    picture.height as u16,
                ),
            )
        }
    }
}

impl NicaiMachine {
    /// Hands out the bytes of the image stream at `source`; `None` where there is none.
    pub fn create_image_from_stream(&self, source: u32, output: u32) -> (request: Option<
        ImageRequest,
    >)
        requires
            self.wf(),
        ensures
            match request {
                Some(request) => self@.stream_job(source, output) == Some(request@),
                None => self@.stream_job(source, output) is None,
            },
    {
        if source == 0 {
            return None;
        }
        let mut index: usize = 0;
        while index < self.resource_data.len()
            invariant
                self.wf(),
                source != 0,
                index <= self.resource_data@.len(),
                first_place(self@.resource_data, source, 0) == first_place(
                    self@.resource_data,
                    source,
                    index as int,
                ),
            decreases self.resource_data@.len() - index,
        {
            if self.resource_data[index] == source {
                return self.create_image_from_resource_index(index, output);
            }
            index += 1;
        }
        let size: u32 = match self.heap.allocation_size(source) {
            Some(size) => size,
            None => {
                return None;
            },
        };
        let region = match self.memory.region(source, size as usize) {
            Some(region) => region,
            None => {
                return None;
            },
        };
        let start: usize = (source - region.base) as usize;
        let mut resource: Vec<u8> = Vec::new();
        let mut i: usize = 0;
        while i < size as usize
            invariant
                i <= size,
                i == resource@.len(),
                start == source - region.base,
                start + size <= region.data.len(),
                forall|k: int| 0 <= k < i ==> #[trigger] resource@[k] == region.data@[start + k],
            decreases size - i,
        {
            resource.push(region.data[start + i]);
            i += 1;
        }
        proof {
            assert(resource@ =~= bytes_from(self@.memory, source, size as nat));
        }
        Some(ImageRequest { resource, name: "guest stream".to_owned(), output })
    }

    /// Hands out the bytes of a resource; `None` where there is no such resource.
    pub fn create_image_from_resource_index(&self, resource_index: usize, output: u32) -> (request:
        Option<ImageRequest>)
        ensures
            match request {
                Some(request) => self@.resource_job(resource_index as int, output) == Some(
                    request@,
                ),
                None => self@.resource_job(resource_index as int, output) is None,
            },
    {
        if resource_index >= self.resources.len() {
            return None;
        }
        let host_resource = &self.resources[resource_index];
        let resource = host_resource.data.clone();
        let name = host_resource.name.clone();
        assert(resource@ =~= host_resource.data@);
        Some(ImageRequest { resource, name, output })
    }

    /// Tells whether the pixels of an image can be stored.
    pub fn can_store(&self, decoded: &DecodedImage) -> (room: bool)
        requires
            self.wf(),
        ensures
            room == self@.stores_pixels(decoded@),
    {
        decoded.has_storable_size() && self.heap.can_allocate(decoded.storage_size())
    }

    /// Makes a guest image of decoded pixels and returns the address of its header; zero where
    /// there is no room for the pixels or the size is not valid. Without an `output` a new
    /// header is allocated.
    pub fn create_image_from_decoded(&mut self, decoded: &DecodedImage, output: u32) -> (image: u32)
        requires
            old(self).wf(),
            old(self)@.stores_pixels(decoded@) ==> decoded@.is_complete(),
        ensures
            final(self).wf(),
            image == old(self)@.image_header(decoded@, output),
            final(self)@ == old(self)@.image_created(decoded@, output),
    {
        if !decoded.has_storable_size() {
            return 0;
        }
        let pitch: u32 = row_pitch(decoded.width);
        let pixels: u32 = self.allocate(decoded.storage_size());
        if pixels == 0 {
            return 0;
        }
        self.store_pixels(decoded, pixels, pitch);
        let ghost stored = old(self)@.pixels_stored(decoded@);
        assert(self@ =~= stored);
        let image: u32 = if output == 0 {
            self.allocate(HEADER_SIZE)
        } else {
            output
        };
        self.memory.w32(image, pixels);
        self.memory.w16(address_at(image, 4), decoded.width as u16);
        self.memory.w16(address_at(image, 6), decoded.height as u16);
        self.memory.w8(address_at(image, 8), 1);
        assert(self@ =~= old(self)@.image_created(decoded@, output));
        image
    }

    /// Writes the colours of a picture to memory.
    fn store_pixels(&mut self, decoded: &DecodedImage, pixels: u32, pitch: u32)
        requires
            old(self).wf(),
            decoded@.has_valid_size(),
            decoded@.is_complete(),
            pitch == pitch_of(decoded.width as int),
            pitch * decoded.height * 2 <= 0x1_0000_0000,
        ensures
            final(self).wf(),
            final(self)@ == old(self)@.with_memory(
                painted(old(self)@.memory, pixels, pitch as int, decoded@.ink()),
            ),
    {
        let ghost m = self@.memory;
        let ghost ink = decoded@.ink();
        let width: u32 = decoded.width;
        let height: u32 = decoded.height;
        let mut y: u32 = 0;
        proof {
            lemma_paint_nothing(m, pixels, pitch as int, ink_until(ink, 0, 0));
        }
        while y < height
            invariant
                self.wf(),
                width == decoded.width,
                height == decoded.height,
                decoded@.has_valid_size(),
                decoded@.is_complete(),
                width <= pitch <= 65536,
                pitch * height * 2 <= 0x1_0000_0000,
                y <= height,
                m == old(self)@.memory,
                ink == decoded@.ink(),
                self@ == old(self)@.with_memory(
                    painted(m, pixels, pitch as int, ink_until(ink, 0, y as int)),
                ),
            decreases height - y,
        {
            let mut x: u32 = 0;
            while x < width
                invariant
                    self.wf(),
                    width == decoded.width,
                    height == decoded.height,
                    decoded@.has_valid_size(),
                    decoded@.is_complete(),
                    width <= pitch <= 65536,
                    pitch * height * 2 <= 0x1_0000_0000,
                    x <= width,
                    y < height,
                    m == old(self)@.memory,
                    ink == decoded@.ink(),
                    self@ == old(self)@.with_memory(
                        painted(m, pixels, pitch as int, ink_until(ink, x as int, y as int)),
                    ),
                decreases width - x,
            {
                proof {
                    assert(0 <= y * width && (y * width + x) * 4 + 4 <= width * height * 4)
                        by (nonlinear_arith)
                        requires
                            0 <= x < width,
                            0 <= y < height,
                    ;
                    assert((y * pitch + x) * 2 + 1 < 0x1_0000_0000) by (nonlinear_arith)
                        requires
                            0 <= x < pitch,
                            0 <= y < height,
                            pitch * height * 2 <= 0x1_0000_0000,
                    ;
                }
                assert(decoded.data.len() >= width * height * 4);
                let at: usize = (y as usize * width as usize + x as usize) * 4;
                let color: u16 = pack_color(
                    decoded.data[at],
                    decoded.data[at + 1],
                    decoded.data[at + 2],
                    decoded.data[at + 3],
                );
                let address: u32 = address_of_pixel(pixels, pitch, x, y);
                self.memory.w16(address, color);
                proof {
                    lemma_paint_pixel(
                        m,
                        pixels,
                        pitch as int,
                        ink_until(ink, x as int, y as int),
                        ink_until(ink, x + 1, y as int),
                        x as int,
                        y as int,
                        color,
                        address,
                    );
                    assert(self@ =~= old(self)@.with_memory(
                        painted(m, pixels, pitch as int, ink_until(ink, x + 1, y as int)),
                    ));
                }
                x += 1;
            }
            proof {
                lemma_same_ink(
                    m,
                    pixels,
                    pitch as int,
                    ink_until(ink, width as int, y as int),
                    ink_until(ink, 0, y + 1),
                );
            }
            y += 1;
        }
        proof {
            lemma_same_ink(m, pixels, pitch as int, ink_until(ink, 0, height as int), ink);
        }
    }
}

/// The bytes of a header are mapped.
pub open spec fn header_mapped(m: Map<u32, u8>, image: u32) -> bool {
    forall|k: int| 0 <= k < 9 ==> m.dom().contains(#[trigger] offset(image, k))
}

/// A header's bytes are found by stepping from one to the next.
#[verifier::rlimit(30)]
proof fn lemma_header_steps(image: u32)
    ensures
        offset(image, 0) == image,
        image.wrapping_add(1) == offset(image, 1),
        image.wrapping_add(2) == offset(image, 2),
        offset(image, 2).wrapping_add(1) == offset(image, 3),
        offset(image, 4).wrapping_add(1) == offset(image, 5),
        offset(image, 6).wrapping_add(1) == offset(image, 7),
        forall|i: int, j: int|
            0 <= i < 9 && 0 <= j < 9 && i != j ==> #[trigger] offset(image, i) != #[trigger] offset(
                image,
                j,
            ),
{
}

/// What is written to a mapped header reads back from it.
pub proof fn law_header_reads_back(
    m: Map<u32, u8>,
    image: u32,
    pixels: u32,
    width: u16,
    height: u16,
)
    requires
        header_mapped(m, image),
    ensures
        ({
            let after = header_written(m, image, pixels, width, height);
            &&& read32(after, image) == pixels
            &&& read16(after, offset(image, 4)) == width
            &&& read16(after, offset(image, 6)) == height
            &&& read8(after, offset(image, 8)) == 1
            &&& after.dom() == m.dom()
        }),
{
    lemma_header_steps(image);
    assert(m.dom().contains(offset(image, 0)));
    assert(m.dom().contains(offset(image, 1)));
    assert(m.dom().contains(offset(image, 2)));
    assert(m.dom().contains(offset(image, 3)));
    assert(m.dom().contains(offset(image, 4)));
    assert(m.dom().contains(offset(image, 5)));
    assert(m.dom().contains(offset(image, 6)));
    assert(m.dom().contains(offset(image, 7)));
    assert(m.dom().contains(offset(image, 8)));
    let m1 = write32(m, image, pixels);
    let m2 = write16(m1, offset(image, 4), width);
    let m3 = write16(m2, offset(image, 6), height);
    let m4 = write8(m3, offset(image, 8), 1);
    assert(m1.dom() =~= m.dom());
    assert(m2.dom() =~= m.dom());
    assert(m3.dom() =~= m.dom());
    assert(m4.dom() =~= m.dom());
    law_word_read_back(m, image, pixels, 0);
    assert(read32(m1, image) == pixels);
    assert(read32(m4, image) == read32(m1, image));
    assert(read16(m4, offset(image, 4)) == read16(m2, offset(image, 4)));
    assert(read16(m4, offset(image, 6)) == read16(m3, offset(image, 6)));
}

/// Writing a header keeps every byte outside of it.
pub proof fn law_header_stays_in_place(
    m: Map<u32, u8>,
    image: u32,
    pixels: u32,
    width: u16,
    height: u16,
    a: u32,
)
    requires
        a.wrapping_sub(image) >= 9,
    ensures
        read8(header_written(m, image, pixels, width, height), a) == read8(m, a),
{
    lemma_header_steps(image);
    assert(forall|k: int| 0 <= k < 9 ==> a != #[trigger] offset(image, k));
    assert(a != offset(image, 0) && a != offset(image, 1) && a != offset(image, 2) && a != offset(
        image,
        3,
    ));
    assert(a != offset(image, 4) && a != offset(image, 5) && a != offset(image, 6) && a != offset(
        image,
        7,
    ));
    assert(a != offset(image, 8));
}

/// A guest image that was made of a picture has the picture's size, and its pixels lie in a
/// block of their own.
pub proof fn law_created_image_has_picture_size(state: MachineState, picture: Picture, output: u32)
    requires
        state.stores_pixels(picture),
        header_mapped(state.memory, state.image_header(picture, output)),
    ensures
        ({
            let image = state.image_header(picture, output);
            let after = state.image_created(picture, output).memory;
            &&& read32(after, image) == state.heap.next_block(picture.pixel_bytes())
            &&& read16(after, offset(image, 4)) == picture.width
            &&& read16(after, offset(image, 6)) == picture.height
        }),
{
    let image = state.image_header(picture, output);
    let stored = state.pixels_stored(picture);
    assert(stored.memory.dom() =~= state.memory.dom());
    law_header_reads_back(
        stored.memory,
        image,
        state.heap.next_block(picture.pixel_bytes()),
        picture.width as u16,
        picture.height as u16,
    );
}

/// A guest image that was made of a picture has the picture's colours, where its pixels are
/// mapped and its header does not lie among them.
pub proof fn law_created_image_has_picture_colours(
    state: MachineState,
    picture: Picture,
    output: u32,
    x: int,
    y: int,
)
    requires
        state.wf(),
        state.stores_pixels(picture),
        0 <= x < picture.width,
        0 <= y < picture.height,
        ({
            let image = state.image_header(picture, output);
            let address = pixel_address(
                state.heap.next_block(picture.pixel_bytes()),
                pitch_of(picture.width as int),
                x,
                y,
            );
            &&& state.memory.dom().contains(address)
            &&& state.memory.dom().contains(address.wrapping_add(1))
            &&& address.wrapping_sub(image) >= 9
            &&& address.wrapping_add(1).wrapping_sub(image) >= 9
        }),
    ensures
        ({
            let address = pixel_address(
                state.heap.next_block(picture.pixel_bytes()),
                pitch_of(picture.width as int),
                x,
                y,
            );
            let at = (y * picture.width + x) * 4;
            read16(state.image_created(picture, output).memory, address) == rgb565(
                picture.data[at],
                picture.data[at + 1],
                picture.data[at + 2],
                picture.data[at + 3],
            )
        }),
{
    let image = state.image_header(picture, output);
    let pixels = state.heap.next_block(picture.pixel_bytes());
    let pitch = pitch_of(picture.width as int);
    let address = pixel_address(pixels, pitch, x, y);
    lemma_stored_pixel_place(state, picture, x, y);
    law_painted_pixel_reads_back(state.memory, pixels, pitch, picture.ink(), x, y);
    let stored = state.pixels_stored(picture).memory;
    law_header_stays_in_place(
        stored,
        image,
        pixels,
        picture.width as u16,
        picture.height as u16,
        address,
    );
    law_header_stays_in_place(
        stored,
        image,
        pixels,
        picture.width as u16,
        picture.height as u16,
        address.wrapping_add(1),
    );
}

/// The pixels of a picture that is stored lie inside their block.
proof fn lemma_stored_pixel_place(state: MachineState, picture: Picture, x: int, y: int)
    requires
        state.wf(),
        state.stores_pixels(picture),
        0 <= x < picture.width,
        0 <= y < picture.height,
    ensures
        ({
            let pitch = pitch_of(picture.width as int);
            let pixels = state.heap.next_block(picture.pixel_bytes());
            &&& x < pitch
            &&& (y * pitch + x) * 2 + 1 < 0x1_0000_0000
            &&& 0 <= (y * pitch + x) * 2
            &&& (y * pitch + x) * 2 + 2 <= picture.pixel_bytes()
            &&& pixels + picture.pixel_bytes() <= state.heap.base + state.heap.size
            &&& pixel_address(pixels, pitch, x, y) == pixels + (y * pitch + x) * 2
        }),
{
    let pitch = pitch_of(picture.width as int);
    assert(0 <= (y * pitch + x) * 2 && (y * pitch + x) * 2 + 2 <= pitch * picture.height * 2)
        by (nonlinear_arith)
        requires
            0 <= x < pitch,
            0 <= y < picture.height,
    ;
}

/// A new header never lies among the pixels of its image.
pub proof fn law_new_header_is_apart(state: MachineState, picture: Picture, x: int, y: int)
    requires
        state.wf(),
        state.stores_pixels(picture),
        state.image_header(picture, 0) != 0,
        0 <= x < picture.width,
        0 <= y < picture.height,
    ensures
        ({
            let image = state.image_header(picture, 0);
            let address = pixel_address(
                state.heap.next_block(picture.pixel_bytes()),
                pitch_of(picture.width as int),
                x,
                y,
            );
            &&& address.wrapping_sub(image) >= 9
            &&& address.wrapping_add(1).wrapping_sub(image) >= 9
        }),
{
    lemma_stored_pixel_place(state, picture, x, y);
}

} // verus!
