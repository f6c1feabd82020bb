//! Barcode symbols: drawing a frame as a QR code, and reading frames back
//! out of a grayscale capture. Both are done by outside crates; what this
//! module adds is the choice of parameters and what is made of the results.

use vstd::prelude::*;
use crate::capacity::{capacity, compute_block_size, strength, valid_density, Redundancy};
use crate::receiver::{symbol_views, symbols_next, symbol_result, Outcome, RecvError, ReceiverSession};
use qrcode::{Color, EcLevel, QrCode, Version};
use quircs::Quirc;

verus! {

/// The QR code of version `version` (1 to 40) that encodes `data` at
/// redundancy level `level` (0 to 3, from L to H): its width in modules and
/// its modules in row-major order (`true`: dark). `None` when the data does
/// not fit that version.
pub uninterp spec fn qr_symbol(data: Seq<u8>, version: int, level: int) -> Option<(nat, Seq<bool>)>;

/// What the QR decoder reads from a grayscale image of `width` by `height`
/// pixels: one entry per symbol it finds, `None` for one it cannot decode.
pub uninterp spec fn decoded_symbols(image: Seq<u8>, width: int, height: int) -> Seq<
    Option<Seq<u8>>,
>;

/// Relies on qrcode's `QrCode::with_version` with `Version::Normal(version)`,
/// which fails when the data does not fit that version; `width` and
/// `to_colors` then read the symbol: `4 * version + 17` modules a side, row
/// by row.
#[verifier::external_body]
fn qr_encode(data: &[u8], version: u8, level: Redundancy) -> (r: Option<(usize, Vec<bool>)>)
    requires
        valid_density(version as int),
    ensures
        r is None <==> qr_symbol(data@, version as int, strength(level)) is None,
        r matches Some((w, cells)) ==> {
            &&& qr_symbol(data@, version as int, strength(level)) == Some((w as nat, cells@))
            &&& w == 4 * version + 17
            &&& cells@.len() == w * w
        },
{
    let ec = match level {
        Redundancy::L => EcLevel::L,
        Redundancy::M => EcLevel::M,
        Redundancy::Q => EcLevel::Q,
        Redundancy::H => EcLevel::H,
    };
    match QrCode::with_version(data, Version::Normal(version as i16), ec) {
        Ok(code) => Some((code.width(), code.to_colors().iter().map(|c| *c == Color::Dark).collect())),
        Err(_) => None,
    }
}

/// Relies on quircs' `Quirc::identify`, which panics unless the image holds
/// exactly `width * height` pixels and counts them in an `i32`, and on
/// `Code::decode` for each symbol found; a symbol that cannot be extracted or
/// decoded gives `None`.
#[verifier::external_body]
fn qr_decode(image: &[u8], width: usize, height: usize) -> (r: Vec<Option<Vec<u8>>>)
    requires
        image@.len() == width * height,
        image@.len() <= i32::MAX,
    ensures
        symbol_views(r@) == decoded_symbols(image@, width as int, height as int),
{
    let mut decoder = Quirc::default();
    let mut out = Vec::new();
    for code in decoder.identify(width, height, image) {
        out.push(match code.map(|c| c.decode()) {
            Ok(Ok(data)) => Some(data.payload),
            _ => None,
        });
    }
    out
}

/// A frame drawn as a QR code: its width in modules, and the column and row
/// of each dark module, row by row.
pub struct Symbol {
    pub width: usize,
    pub dark: Vec<(usize, usize)>,
}

#[derive(Clone, Copy, Debug, PartialEq, Eq, Structural)]
pub enum EncodeError {
    /// The frame does not fit a symbol of this density and redundancy.
    TooLarge,
}

/// Column and row of the dark modules among the first `n` modules of a
/// symbol `width` modules wide, in row-major order.
pub open spec fn dark_cells(cells: Seq<bool>, width: int, n: int) -> Seq<(usize, usize)>
    decreases n,
{
    if n <= 0 {
        Seq::empty()
    } else if cells[n - 1] {
        dark_cells(cells, width, n - 1).push((((n - 1) % width) as usize, ((n - 1) / width) as usize))
    } else {
        dark_cells(cells, width, n - 1)
    }
}

/// The dark modules of a symbol `width` modules wide.
pub fn dark_modules(width: usize, cells: &Vec<bool>) -> (r: Vec<(usize, usize)>)
    requires
        width > 0,
        cells@.len() == width * width,
    ensures
        r@ == dark_cells(cells@, width as int, cells@.len() as int),
{
    let mut out: Vec<(usize, usize)> = Vec::new();
    let mut i: usize = 0;
    while i < cells.len()
        invariant
            i <= cells@.len(),
            width > 0,
            out@ == dark_cells(cells@, width as int, i as int),
        decreases cells@.len() - i,
    {
        if cells[i] {
            out.push((i % width, i / width));
        }
        i = i + 1;
    }
    out
}

/// Draws `frame` as a QR code of density level `density` at redundancy
/// level `level`; refuses a frame longer than that configuration's byte
/// capacity, or one the encoder cannot fit into it.
pub fn encode_frame(frame: &[u8], density: u8, level: Redundancy) -> (r: Result<Symbol, EncodeError>)
    requires
        valid_density(density as int),
    ensures
        r is Err <==> frame@.len() > capacity(density as int, level) || qr_symbol(
            frame@,
            density as int,
            strength(level),
        ) is None,
        r matches Ok(s) ==> qr_symbol(frame@, density as int, strength(level)) matches Some(
            (w, cells),
        ) && s.width == w && s.width == 4 * density + 17 && s.dark@ == dark_cells(
            cells,
            w as int,
            cells.len() as int,
        ),
{
    let limit = match compute_block_size(density, level) {
        Some(b) => b,
        None => 0,
    };
    if frame.len() > limit as usize {
        return Err(EncodeError::TooLarge);
    }
    match qr_encode(frame, density, level) {
        Some((width, cells)) => {
            let dark = dark_modules(width, &cells);
            Ok(Symbol { width, dark })
        },
        None => Err(EncodeError::TooLarge),
    }
}

impl ReceiverSession {
    /// Runs one decode cycle on a grayscale capture of `width` by `height`
    /// pixels and handles every symbol found, in the decoder's order.
    pub fn on_capture(&mut self, image: &[u8], width: usize, height: usize) -> (r: Vec<
        Result<Outcome, RecvError>,
    >)
        requires
            old(self).wf(),
            image@.len() == width * height,
            image@.len() <= i32::MAX,
        ensures
            final(self).wf(),
            final(self)@ == symbols_next(
                old(self)@,
                decoded_symbols(image@, width as int, height as int),
            ),
            r@.len() == decoded_symbols(image@, width as int, height as int).len(),
            forall|i: int|
                0 <= i < r@.len() ==> #[trigger] r@[i] == symbol_result(
                    symbols_next(
                        old(self)@,
                        decoded_symbols(image@, width as int, height as int).subrange(0, i),
                    ),
                    decoded_symbols(image@, width as int, height as int)[i],
                ),
    {
        let symbols = qr_decode(image, width, height);
        self.on_decoded(&symbols)
    }
}

} // verus!
