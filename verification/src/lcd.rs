//! The display services that the firmware offers to games.
//!
//! A service takes its arguments from the registers and the stack and returns its result in the
//! first register. Most are carried out at once. Those that need the host, to decode an image or
//! to load a package, say so and are resumed with the host's reply.
//!
//! Games place text in two ways. Either the coordinates come with the text, or they are handed
//! to the call that asks for the screen's pixels just before, and come as zero with the text.
//! That call therefore keeps its coordinates as the origin of the text that follows.

use vstd::prelude::*;

use crate::drawing::screen_rect_ink;
use crate::font::{glyphs_of, line_width, pen_offset, text_glyphs, Glyph};
use crate::images::{DecodedImage, ImageJob, ImageRequest};
use crate::lettering::TEXT_LIMIT;
use crate::machine::{MachineState, NicaiMachine};
use crate::memory::{address_at, c_bytes, offset, read16, read32, read8, write16, write32};
use crate::surface::{signed16, signed_coord};
use crate::text::{decodes_plainly, encode_utf16, first_units, gbk_text, utf16};

verus! {

/// The kind of package that the main resources are loaded as.
pub const MAIN_PACKAGE_KIND: u32 = 5;

/// Image numbers from here on count from zero again.
pub const IMAGE_NUMBER_BASE: u32 = 0xfff;

/// What is left to do once a display service has run.
#[derive(Debug)]
pub enum LcdStep {
    /// Nothing: the result is in place.
    Done,
    /// Decode an image and resume with the pixels.
    DecodeImage(ImageRequest),
    /// Set up an image data page and resume with the value.
    InitializeImageDataPage { inner: bool },
    /// Set up the package at this address, load the main resources into it and resume.
    LoadMainPackage { package: u32, kind: u32 },
    /// Make an image out of a data package and resume with the value.
    CreateImageFromDataPackage { first: u32, second: u32, third: u32 },
}

/// What a step asks for.
pub enum Outcome {
    Done,
    DecodeImage(ImageJob),
    InitializeImageDataPage { inner: bool },
    LoadMainPackage { package: u32, kind: u32 },
    CreateImageFromDataPackage { first: u32, second: u32, third: u32 },
}

impl View for LcdStep {
    type V = Outcome;

    open spec fn view(&self) -> Outcome {
        match *self {
            LcdStep::Done => Outcome::Done,
            LcdStep::DecodeImage(request) => Outcome::DecodeImage(request@),
            LcdStep::InitializeImageDataPage { inner } => Outcome::InitializeImageDataPage {
                inner,
            },
            LcdStep::LoadMainPackage { package, kind } => Outcome::LoadMainPackage {
                package,
                kind,
            },
            LcdStep::CreateImageFromDataPackage {
                first,
                second,
                third,
            } => Outcome::CreateImageFromDataPackage { first, second, third },
        }
    }
}

/// What the host hands back for a step.
#[derive(Debug)]
pub enum HostReply {
    /// The pixels of the image that goes to `output`, if it could be decoded.
    Image { output: u32, decoded: Option<DecodedImage> },
    /// The result of the service.
    Value(u32),
    /// The main resources are loaded into the package at this address.
    PackageLoaded { package: u32 },
}

/// The glyphs of the C string at `address`.
pub open spec fn string_glyphs(m: Map<u32, u8>, address: u32) -> Seq<Option<Glyph>> {
    glyphs_of(gbk_text(c_bytes(m, address, TEXT_LIMIT as nat)))
}

/// The UTF-16 units that a C string is turned into where there is room for `capacity` of them,
/// one of which is needed for the end.
pub open spec fn converted_units(m: Map<u32, u8>, source: u32, capacity: u32) -> Seq<u16> {
    first_units(utf16(gbk_text(c_bytes(m, source, TEXT_LIMIT as nat))), capacity - 1)
}

/// Memory after halfwords are written one after the other.
pub open spec fn units_written(m: Map<u32, u8>, destination: u32, units: Seq<u16>) -> Map<u32, u8>
    decreases units.len(),
{
    if units.len() == 0 {
        m
    } else {
        write16(
            units_written(m, destination, units.drop_last()),
            offset(destination, 2 * (units.len() - 1)),
            units.last(),
        )
    }
}

/// The point lies in the rectangle between two corners, which belong to it. Points are packed,
/// with the row in the upper half.
pub open spec fn inside_corners(point: u32, first: u32, last: u32) -> bool {
    &&& first % 65536 <= point % 65536 <= last % 65536
    &&& first / 65536 <= point / 65536 <= last / 65536
}

impl MachineState {
    /// Where text goes that comes with these coordinates: to the kept origin if both are zero.
    pub open spec fn text_position(self, x: i32, y: i32) -> (i32, i32) {
        if x == 0 && y == 0 {
            self.text_origin
        } else {
            (x, y)
        }
    }

    /// The first register points to a string that is not empty.
    pub open spec fn starts_with_string(self) -> bool {
        read8(self.memory, self.registers[0]) != 0
    }

    /// Text with a string, a place and a colour that stand one register further on unless the
    /// first register points to a string.
    pub open spec fn styled_text_drawn(self) -> MachineState {
        if self.starts_with_string() {
            self.text_drawn(
                self.registers[0],
                signed16(self.registers[1]),
                signed16(self.registers[2]),
                (read32(self.memory, offset(self.stack(), 4)) % 65536) as u16,
            )
        } else {
            self.text_drawn(
                self.registers[1],
                signed16(self.registers[2]),
                signed16(self.registers[3]),
                read16(self.memory, offset(self.stack(), 16)),
            )
        }
    }

    /// A rectangle call that takes packed corners or else its height and colour on the stack.
    pub open spec fn screen_rect_drawn(self, outline: bool) -> MachineState {
        if self.has_packed_corners() {
            self.packed_rect_drawn(outline)
        } else {
            self.rect_drawn(false, outline)
        }
    }

    /// The registers hold the place and the size of a rectangle near the frame.
    pub open spec fn has_plain_rect(self) -> bool {
        &&& self.registers[0] <= 65535
        &&& -239 <= signed16(self.registers[0]) < 240
        &&& -399 <= signed16(self.registers[1]) < 400
        &&& -239 <= signed16(self.registers[2]) <= 240
        &&& -399 <= signed16(self.registers[3]) <= 400
    }

    /// A filled rectangle: on the frame buffer if the registers hold one, or else on the image
    /// that the first register names.
    pub open spec fn filled_rect_drawn(self) -> MachineState {
        if self.has_plain_rect() {
            self.screen_painted(
                screen_rect_ink(
                    signed16(self.registers[0]) as int,
                    signed16(self.registers[1]) as int,
                    signed16(self.registers[2]) as int,
                    signed16(self.registers[3]) as int,
                    (read32(self.memory, self.stack()) % 65536) as u16,
                ),
            )
        } else {
            self.rect_drawn(true, false)
        }
    }

    /// A C string turned into UTF-16 with a zero at the end.
    pub open spec fn text_converted(
        self,
        source: u32,
        destination: u32,
        capacity: u32,
    ) -> MachineState {
        if source == 0 || destination == 0 || capacity == 0 {
            self.with_result(0)
        } else {
            let units = converted_units(self.memory, source, capacity);
            self.with_memory(
                write16(
                    units_written(self.memory, destination, units),
                    offset(destination, 2 * units.len() as int),
                    0,
                ),
            ).with_result(units.len() as u32)
        }
    }

    /// What comes of asking for an image.
    pub open spec fn image_requested(self, job: Option<ImageJob>) -> (MachineState, Outcome) {
        match job {
            Some(job) => (self, Outcome::DecodeImage(job)),
            None => (self.with_result(0), Outcome::Done),
        }
    }

    /// The machine with no image package.
    pub open spec fn packages_cleared(self) -> MachineState {
        MachineState {
            app_image_package: 0,
            inner_image_package: 0,
            current_image_package: 0,
            memory: write32(self.memory, self.layout.package_slot, 0),
            ..self
        }
    }

    /// The machine with another image package.
    pub open spec fn package_selected(self, package: u32) -> MachineState {
        MachineState {
            current_image_package: package,
            memory: write32(self.memory, self.layout.package_slot, package),
            ..self
        }
    }

    /// How many entries the package at this address has.
    pub open spec fn package_count(self, package: u32) -> u32 {
        read16(self.memory, offset(package, 8)) as u32
    }

    /// What comes of switching to the package at this address.
    pub open spec fn package_switched(self, package: u32) -> (MachineState, Outcome) {
        if package == 0 {
            (self.with_result(0), Outcome::Done)
        } else {
            let selected = self.package_selected(package);
            let count = selected.package_count(package);
            if count == 0 {
                (selected, Outcome::LoadMainPackage { package, kind: MAIN_PACKAGE_KIND })
            } else {
                (selected.with_result(count), Outcome::Done)
            }
        }
    }

    /// The services that draw.
    pub open spec fn drawing_service(self, index: u32) -> MachineState {
        if index == 9 {
            self.text_drawn(
                self.registers[0],
                signed16(self.registers[1]),
                signed16(self.registers[2]),
                (self.registers[3] % 65536) as u16,
            )
        } else if index == 10 {
            let (x, y) = self.text_position(
                signed16(self.registers[2]),
                signed16(self.registers[3]),
            );
            self.text_drawn(self.registers[1], x, y, read16(self.memory, self.stack()))
        } else if 11 <= index <= 13 {
            self.styled_text_drawn()
        } else if index == 16 {
            self.screen_rect_drawn(true)
        } else if index == 17 {
            self.rect_drawn(true, true)
        } else if index == 18 {
            self.screen_rect_drawn(false)
        } else if index == 19 {
            self.filled_rect_drawn()
        } else if index == 24 || index == 25 {
            self.blitted(self.clip_request(index == 25))
        } else if index == 26 || index == 28 {
            self.blitted(
                self.whole_image_request(
                    self.registers[0],
                    signed16(self.registers[1]),
                    signed16(self.registers[1] / 65536),
                    index == 28,
                ),
            )
        } else if index == 27 {
            self.blitted(
                self.whole_image_request(
                    self.registers[0],
                    signed16(self.registers[1]),
                    signed16(self.registers[2]),
                    false,
                ),
            )
        } else if index == 29 || index == 31 {
            self.blitted(self.packed_request(index == 31))
        } else {
            self.blitted(self.full_clip_request(index == 32))
        }
    }

    /// The service draws and returns one.
    pub open spec fn draws(index: u32) -> bool {
        9 <= index <= 13 || 16 <= index <= 19 || 24 <= index <= 32
    }

    /// The services that return a value and change nothing else.
    pub open spec fn query_service(self, index: u32) -> u32 {
        if index == 0 {
            self.layout.screen_image_struct
        } else if index == 5 {
            if self.registers[0] == 0 {
                8
            } else {
                16
            }
        } else if index == 6 || index == 62 {
            16
        } else if index == 7 {
            let glyphs = string_glyphs(self.memory, self.registers[0]);
            (pen_offset(glyphs, glyphs.len() as int) % 0x1_0000_0000) as u32
        } else if index == 33 {
            read16(self.memory, offset(self.registers[0], 4)) as u32
        } else if index == 34 {
            read16(self.memory, offset(self.registers[0], 6)) as u32
        } else if index == 36 || 54 <= index <= 56 {
            1
        } else if index == 40 {
            if inside_corners(self.registers[0], self.registers[1], self.registers[2]) {
                1
            } else {
                0
            }
        } else {
            0
        }
    }

    /// The address of the string that a display service reads, if it reads one.
    pub open spec fn text_argument(self, index: u32) -> Option<u32> {
        if index == 7 || index == 9 {
            Some(self.registers[0])
        } else if index == 10 {
            Some(self.registers[1])
        } else if 11 <= index <= 13 {
            if self.starts_with_string() {
                Some(self.registers[0])
            } else {
                Some(self.registers[1])
            }
        } else if index == 38 && self.registers[0] != 0 && self.registers[1] != 0
            && self.registers[2] != 0 {
            Some(self.registers[0])
        } else {
            None
        }
    }

    /// The machine after a display service, and what is left to do.
    pub open spec fn lcd_service(self, index: u32) -> (MachineState, Outcome) {
        if index == 1 {
            (
                (MachineState {
                    text_origin: (signed16(self.registers[1]), signed16(self.registers[2])),
                    ..self
                }).with_result(self.layout.screen_image),
                Outcome::Done,
            )
        } else if MachineState::draws(index) {
            (self.drawing_service(index).with_result(1), Outcome::Done)
        } else if index == 22 {
            let number = self.registers[0];
            let local = if number >= IMAGE_NUMBER_BASE {
                number - IMAGE_NUMBER_BASE
            } else {
                number as int
            };
            self.image_requested(self.resource_job(local, self.registers[1]))
        } else if index == 35 {
            if self.registers[0] != 0 {
                (
                    self.with_memory(write32(self.memory, self.registers[0], 0)).with_result(1),
                    Outcome::Done,
                )
            } else {
                (self.with_result(0), Outcome::Done)
            }
        } else if index == 38 {
            (
                self.text_converted(self.registers[0], self.registers[1], self.registers[2]),
                Outcome::Done,
            )
        } else if index == 44 || index == 45 {
            (self, Outcome::InitializeImageDataPage { inner: index == 45 })
        } else if index == 46 {
            (self.packages_cleared().with_result(0), Outcome::Done)
        } else if index == 47 {
            self.package_switched(self.registers[2])
        } else if index == 48 {
            (
                self,
                Outcome::CreateImageFromDataPackage {
                    first: self.registers[0],
                    second: self.registers[1],
                    third: self.registers[2],
                },
            )
        } else if index == 49 {
            self.image_requested(self.stream_job(self.registers[0], self.registers[1]))
        } else {
            (self.with_result(self.query_service(index)), Outcome::Done)
        }
    }

    /// The machine after the host's reply.
    pub open spec fn resumed(self, reply: HostReply) -> MachineState {
        match reply {
            HostReply::Image { output, decoded } => match decoded {
                Some(image) => self.image_created(image@, output).with_result(
                    self.image_header(image@, output),
                ),
                None => self.with_result(0),
            },
            HostReply::Value(value) => self.with_result(value),
            HostReply::PackageLoaded { package } => self.with_result(self.package_count(package)),
        }
    }

    /// The machine after a display service for games.
    pub open spec fn game_lcd_service(self, index: u32) -> MachineState {
        if index == 11 {
            let image = self.registers[0];
            if image != 0 {
                let m = write32(self.memory, image, 0);
                let m = write32(m, offset(image, 4), 0);
                let m = write32(m, offset(image, 8), 0);
                self.with_memory(m).with_result(0)
            } else {
                self.with_result(0)
            }
        } else if index == 20 {
            self.stream_decoded(self.registers[0]).with_result(
                self.stream_block(self.registers[0]),
            )
        } else {
            self.with_result(0)
        }
    }
}

impl NicaiMachine {
    /// Writes halfwords one after the other.
    fn write_units(&mut self, destination: u32, units: &Vec<u16>)
        requires
            old(self).wf(),
        ensures
            final(self).wf(),
            final(self)@ == old(self)@.with_memory(
                units_written(old(self)@.memory, destination, units@),
            ),
    {
        let mut i: usize = 0;
        assert(units@.take(0) =~= Seq::<u16>::empty());
        while i < units.len()
            invariant
                self.wf(),
                i <= units@.len(),
                self@ == old(self)@.with_memory(
                    units_written(old(self)@.memory, destination, units@.take(i as int)),
                ),
            decreases units@.len() - i,
        {
            let place: u32 = unit_address(destination, i);
            self.memory.w16(place, units[i]);
            proof {
                let part = units@.take(i + 1);
                assert(part.drop_last() =~= units@.take(i as int));
                assert(self@ =~= old(self)@.with_memory(
                    units_written(old(self)@.memory, destination, part),
                ));
            }
            i += 1;
        }
        assert(units@.take(units@.len() as int) =~= units@);
    }

    /// Turns a C string into UTF-16 and returns the number of units, without the zero at the end.
    pub fn convert_text(&mut self, source: u32, destination: u32, capacity: u32)
        requires
            old(self).wf(),
        ensures
            final(self).wf(),
            final(self)@ == old(self)@.text_converted(source, destination, capacity),
            source != 0 && destination != 0 && capacity != 0 ==> decodes_plainly(
                c_bytes(old(self)@.memory, source, TEXT_LIMIT as nat),
            ),
    {
        if source == 0 || destination == 0 || capacity == 0 {
            self.set_result(0);
            return ;
        }
        let text = self.guest_string(source);
        let units = encode_utf16(text.as_str(), (capacity - 1) as usize);
        self.write_units(destination, &units);
        let end: u32 = unit_address(destination, units.len());
        self.memory.w16(end, 0);
        self.set_result(units.len() as u32);
    }

    /// Asks the host for an image, or returns zero where there is none.
    fn request_image(&mut self, request: Option<ImageRequest>) -> (step: LcdStep)
        requires
            old(self).wf(),
        ensures
            final(self).wf(),
            (final(self)@, step@) == old(self)@.image_requested(
                match request {
                    Some(request) => Some(request@),
                    None => None,
                },
            ),
    {
        match request {
            Some(request) => LcdStep::DecodeImage(request),
            None => {
                self.set_result(0);
                LcdStep::Done
            },
        }
    }

    /// Draws text whose arguments stand one register further on unless the first register points
    /// to a string.
    fn draw_styled_text(&mut self)
        requires
            old(self).wf(),
        ensures
            final(self).wf(),
            final(self)@ == old(self)@.styled_text_drawn(),
            decodes_plainly(
                c_bytes(
                    old(self)@.memory,
                    old(self)@.text_argument(11)->0,
                    TEXT_LIMIT as nat,
                ),
            ),
    {
        let r0: u32 = self.register(0);
        let stack: u32 = self.stack_pointer();
        let r0_is_string = self.memory.r8(r0) != 0;
        let (string, x, y, color): (u32, i32, i32, u16) = if r0_is_string {
            (
                r0,
                signed_coord(self.register(1)),
                signed_coord(self.register(2)),
                (self.memory.r32(address_at(stack, 4)) % 65536) as u16,
            )
        } else {
            (
                self.register(1),
                signed_coord(self.register(2)),
                signed_coord(self.register(3)),
                self.memory.r16(address_at(stack, 16)),
            )
        };
        self.draw_text(string, x, y, color);
    }

    /// Draws text at its coordinates, or at the kept origin if both are zero.
    fn draw_placed_text(&mut self)
        requires
            old(self).wf(),
        ensures
            final(self).wf(),
            final(self)@ == old(self)@.drawing_service(10),
            decodes_plainly(
                c_bytes(
                    old(self)@.memory,
                    old(self)@.text_argument(10)->0,
                    TEXT_LIMIT as nat,
                ),
            ),
    {
        let string: u32 = self.register(1);
        let raw_x: i32 = signed_coord(self.register(2));
        let raw_y: i32 = signed_coord(self.register(3));
        let (x, y): (i32, i32) = if raw_x == 0 && raw_y == 0 {
            self.latched_text_origin
        } else {
            (raw_x, raw_y)
        };
        let color: u16 = self.memory.r16(self.stack_pointer());
        self.draw_text(string, x, y, color);
    }

    /// Fills a rectangle of the frame buffer, or of the image that the first register names.
    fn draw_filled_rect(&mut self)
        requires
            old(self).wf(),
        ensures
            final(self).wf(),
            final(self)@ == old(self)@.filled_rect_drawn(),
    {
        let x: i32 = signed_coord(self.register(0));
        let y: i32 = signed_coord(self.register(1));
        let width: i32 = signed_coord(self.register(2));
        let height: i32 = signed_coord(self.register(3));
        if self.register(0) <= 65535 && -239 <= x && x < 240 && -399 <= y && y < 400 && -239
            <= width && width <= 240 && -399 <= height && height <= 400 {
            let color: u16 = (self.memory.r32(self.stack_pointer()) % 65536) as u16;
            self.fill_screen_rect(x, y, width, height, color);
        } else {
            self.draw_rect(true, false);
        }
    }

    /// Draws a rectangle of the frame buffer with packed corners, or else with its height and
    /// colour on the stack.
    fn draw_screen_rect(&mut self, outline: bool)
        requires
            old(self).wf(),
        ensures
            final(self).wf(),
            final(self)@ == old(self)@.screen_rect_drawn(outline),
    {
        if !self.draw_packed_screen_rect(outline) {
            self.draw_rect(false, outline);
        }
    }

    /// Tells how wide the string in the first register is.
    fn measure_text(&self) -> (width: u32)
        requires
            self.wf(),
        ensures
            width == self@.query_service(7),
            decodes_plainly(
                c_bytes(self@.memory, self@.text_argument(7)->0, TEXT_LIMIT as nat),
            ),
    {
        let text = self.guest_string(self.register(0));
        let glyphs = text_glyphs(text.as_str());
        line_width(&glyphs)
    }

    /// Switches to the image package at `package`.
    fn switch_package(&mut self, package: u32) -> (step: LcdStep)
        requires
            old(self).wf(),
        ensures
            final(self).wf(),
            (final(self)@, step@) == old(self)@.package_switched(package),
    {
        if package == 0 {
            self.set_result(0);
            return LcdStep::Done;
        }
        self.current_image_package = package;
        self.memory.w32(self.layout.package_slot, package);
        assert(self@ =~= old(self)@.package_selected(package));
        let count: u16 = self.memory.r16(address_at(package, 8));
        if count == 0 {
            LcdStep::LoadMainPackage { package, kind: MAIN_PACKAGE_KIND }
        } else {
            self.set_result(count as u32);
            LcdStep::Done
        }
    }

    /// Runs a display service as far as it goes without the host.
    #[verifier::rlimit(30)]
    pub fn handle_lcd_service(&mut self, index: u32) -> (step: LcdStep)
        requires
            old(self).wf(),
        ensures
            final(self).wf(),
            (final(self)@, step@) == old(self)@.lcd_service(index),
            old(self)@.text_argument(index) matches Some(address) ==> decodes_plainly(
                c_bytes(old(self)@.memory, address, TEXT_LIMIT as nat),
            ),
    {
        match index {
            0 => self.set_result(self.layout.screen_image_struct),
            1 => {
                self.latched_text_origin = (
                    signed_coord(self.register(1)),
                    signed_coord(self.register(2)),
                );
                self.set_result(self.layout.screen_image);
            },
            5 => {
                let size: u32 = if self.register(0) == 0 {
                    8
                } else {
                    16
                };
                self.set_result(size);
            },
            6 => self.set_result(16),
            7 => {
                let width: u32 = self.measure_text();
                self.set_result(width);
            },
            9 => {
                let string: u32 = self.register(0);
                let x: i32 = signed_coord(self.register(1));
                let y: i32 = signed_coord(self.register(2));
                let color: u16 = (self.register(3) % 65536) as u16;
                self.draw_text(string, x, y, color);
                self.set_result(1);
            },
            10 => {
                self.draw_placed_text();
                self.set_result(1);
            },
            11 | 12 | 13 => {
                self.draw_styled_text();
                self.set_result(1);
            },
            16 => {
                self.draw_screen_rect(true);
                self.set_result(1);
            },
            17 => {
                self.draw_rect(true, true);
                self.set_result(1);
            },
            18 => {
                self.draw_screen_rect(false);
                self.set_result(1);
            },
            19 => {
                self.draw_filled_rect();
                self.set_result(1);
            },
            22 => {
                let image_id: u32 = self.register(0);
                let output: u32 = self.register(1);
                let local_id: u32 = if image_id >= IMAGE_NUMBER_BASE {
                    image_id - IMAGE_NUMBER_BASE
                } else {
                    image_id
                };
                let request = self.create_image_from_resource_index(local_id as usize, output);
                return self.request_image(request);
            },
            24 | 25 => {
                self.draw_image_clip(index == 25);
                self.set_result(1);
            },
            26 | 28 => {
                let packed: u32 = self.register(1);
                self.draw_image_at(
                    self.register(0),
                    signed_coord(packed),
                    signed_coord(packed / 65536),
                    index == 28,
                );
                self.set_result(1);
            },
            27 => {
                self.draw_image_at(
                    self.register(0),
                    signed_coord(self.register(1)),
                    signed_coord(self.register(2)),
                    false,
                );
                self.set_result(1);
            },
            29 | 31 => {
                self.draw_image_packed(index == 31);
                self.set_result(1);
            },
            30 | 32 => {
                self.draw_image_full_clip(index == 32);
                self.set_result(1);
            },
            33 | 34 => {
                let image: u32 = self.register(0);
                let field: u32 = if index == 33 {
                    4
                } else {
                    6
                };
                let result: u32 = self.memory.r16(address_at(image, field)) as u32;
                self.set_result(result);
            },
            35 => {
                let image: u32 = self.register(0);
                if image != 0 {
                    self.memory.w32(image, 0);
                    self.set_result(1);
                } else {
                    self.set_result(0);
                }
            },
            36 | 54 | 55 | 56 => self.set_result(1),
            38 => {
                let source: u32 = self.register(0);
                let destination: u32 = self.register(1);
                let capacity: u32 = self.register(2);
                self.convert_text(source, destination, capacity);
            },
            40 => {
                let x: u32 = self.register(0) % 65536;
                let y: u32 = self.register(0) / 65536;
                let left: u32 = self.register(1) % 65536;
                let top: u32 = self.register(1) / 65536;
                let right: u32 = self.register(2) % 65536;
                let bottom: u32 = self.register(2) / 65536;
                let inside = x >= left && x <= right && y >= top && y <= bottom;
                let result: u32 = if inside {
                    1
                } else {
                    0
                };
                self.set_result(result);
            },
            44 | 45 => {
                return LcdStep::InitializeImageDataPage { inner: index == 45 };
            },
            46 => {
                self.app_image_package = 0;
                self.inner_image_package = 0;
                self.current_image_package = 0;
                self.memory.w32(self.layout.package_slot, 0);
                self.set_result(0);
            },
            47 => {
                let package: u32 = self.register(2);
                return self.switch_package(package);
            },
            48 => {
                return LcdStep::CreateImageFromDataPackage {
                    first: self.register(0),
                    second: self.register(1),
                    third: self.register(2),
                };
            },
            49 => {
                let request = self.create_image_from_stream(self.register(0), self.register(1));
                return self.request_image(request);
            },
            62 => self.set_result(16),
            _ => self.set_result(0),
        }
        assert(self@ =~= old(self)@.lcd_service(index).0);
        LcdStep::Done
    }

    /// Finishes a display service with what the host handed back.
    pub fn resume_lcd_service(&mut self, reply: &HostReply)
        requires
            old(self).wf(),
            reply matches HostReply::Image { decoded: Some(image), .. } ==> (
            old(self)@.stores_pixels(image@) ==> image@.is_complete()),
        ensures
            final(self).wf(),
            final(self)@ == old(self)@.resumed(*reply),
    {
        match reply {
            HostReply::Image { output, decoded } => {
                let image: u32 = match decoded {
                    Some(image) => self.create_image_from_decoded(image, *output),
                    None => 0,
                };
                self.set_result(image);
            },
            HostReply::Value(value) => self.set_result(*value),
            HostReply::PackageLoaded { package } => {
                let count: u16 = self.memory.r16(address_at(*package, 8));
                self.set_result(count as u32);
            },
        }
    }

    /// Runs a display service for games.
    pub fn handle_game_lcd_service(&mut self, index: u32)
        requires
            old(self).wf(),
        ensures
            final(self).wf(),
            final(self)@ == old(self)@.game_lcd_service(index),
    {
        match index {
            11 => {
                let image: u32 = self.register(0);
                if image != 0 {
                    self.memory.w32(image, 0);
                    self.memory.w32(address_at(image, 4), 0);
                    self.memory.w32(address_at(image, 8), 0);
                }
                self.set_result(0);
            },
            20 => {
                let result: u32 = self.decode_resource_stream(self.register(0));
                self.set_result(result);
            },
            _ => self.set_result(0),
        }
        assert(self@ =~= old(self)@.game_lcd_service(index));
    }
}

/// The address of the `i`th halfword from `destination` on.
fn unit_address(destination: u32, i: usize) -> (address: u32)
    ensures
        address == offset(destination, 2 * i),
{
    ((destination as u128 + 2 * i as u128) % 0x1_0000_0000) as u32
}

} // verus!
