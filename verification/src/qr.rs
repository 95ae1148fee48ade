//! The grid of modules of a QR code, and the encoder that makes one of a text.

use vstd::prelude::*;
use qrcodegen::QrCode;
use qrcodegen::QrCodeEcc;

verus! {

/// The largest number of modules along one side that a grid may have.
pub const MAX_SIDE: usize = 0x7fff_ffff;

/// The views of the rows of a grid.
pub open spec fn rows_view(rows: Seq<Vec<bool>>) -> Seq<Seq<bool>> {
    rows.map_values(|row: Vec<bool>| row@)
}

/// Whether `grid` has as many rows as each row has modules.
pub open spec fn is_square(grid: Seq<Seq<bool>>) -> bool {
    forall|y: int| 0 <= y < grid.len() ==> (#[trigger] grid[y]).len() == grid.len()
}

/// Whether `grid` is square with a side that a QR code can have: between 21
/// and 177 modules.
pub open spec fn is_symbol(grid: Seq<Seq<bool>>) -> bool {
    21 <= grid.len() <= 177 && is_square(grid)
}

/// A square grid of modules, each dark or light, in rows from top to bottom.
#[derive(Debug)]
pub struct ModuleGrid {
    rows: Vec<Vec<bool>>,
}

impl View for ModuleGrid {
    type V = Seq<Seq<bool>>;

    closed spec fn view(&self) -> Seq<Seq<bool>> {
        rows_view(self.rows@)
    }
}

impl ModuleGrid {
    #[verifier::type_invariant]
    spec fn well_formed(self) -> bool {
        is_square(rows_view(self.rows@)) && self.rows@.len() <= MAX_SIDE
    }

    /// The grid with the given rows, where they make a square of at most
    /// `MAX_SIDE` modules a side.
    pub fn from_rows(rows: Vec<Vec<bool>>) -> (grid: Option<ModuleGrid>)
        ensures
            grid is Some <==> is_square(rows_view(rows@)) && rows@.len() <= MAX_SIDE,
            grid matches Some(g) ==> g@ == rows_view(rows@),
    {
        let side = rows.len();
        if side > MAX_SIDE {
            return None;
        }
        let mut y: usize = 0;
        while y < side
            invariant
                y <= side,
                side == rows.len(),
                forall|k: int| 0 <= k < y ==> (#[trigger] rows_view(rows@)[k]).len() == side,
            decreases side - y,
        {
            if rows[y].len() != side {
                assert(rows_view(rows@)[y as int].len() != side);
                return None;
            }
            y += 1;
        }
        Some(ModuleGrid { rows })
    }

    /// The number of modules along one side.
    pub fn size(&self) -> (side: usize)
        ensures
            side == self@.len(),
            side <= MAX_SIDE,
            is_square(self@),
    {
        proof {
            use_type_invariant(self);
        }
        self.rows.len()
    }

    /// Whether the module in column `x` of row `y` is dark. Outside the grid
    /// every module is light.
    pub fn get_module(&self, x: usize, y: usize) -> (dark: bool)
        ensures
            dark == (x < self@.len() && y < self@.len() && self@[y as int][x as int]),
    {
        proof {
            use_type_invariant(self);
        }
        if y < self.rows.len() {
            assert(rows_view(self.rows@)[y as int].len() == self.rows@.len());
            x < self.rows.len() && self.rows[y][x]
        } else {
            false
        }
    }
}

/// What the QR encoder makes of a text at the medium level of error
/// correction: the rows of the symbol, or the encoder's message where the text
/// does not fit into any symbol.
pub uninterp spec fn qr_encoding(text: Seq<char>) -> Result<Seq<Seq<bool>>, Seq<char>>;

/// The text of an encoder's result.
pub open spec fn encoding_view(r: Result<Vec<Vec<bool>>, String>) -> Result<
    Seq<Seq<bool>>,
    Seq<char>,
> {
    match r {
        Ok(rows) => Ok(rows_view(rows@)),
        Err(message) => Err(message@),
    }
}

/// Calls `qrcodegen::QrCode::encode_text` at `QrCodeEcc::Medium` and reads the
/// symbol out with `QrCode::size` and `QrCode::get_module`, row by row.
///
/// Trusted: the encoder's result is a function of the text alone, here called
/// `qr_encoding`; a symbol is square, with 21 to 177 modules a side. On
/// failure the message is the text of the encoder's error.
#[verifier::external_body]
fn encode_medium(text: &str) -> (r: Result<Vec<Vec<bool>>, String>)
    ensures
        encoding_view(r) == qr_encoding(text@),
        r matches Ok(rows) ==> is_symbol(rows_view(rows@)),
{
    let qr = QrCode::encode_text(text, QrCodeEcc::Medium).map_err(|e| e.to_string())?;
    Ok((0..qr.size()).map(|y| (0..qr.size()).map(|x| qr.get_module(x, y)).collect()).collect())
}

/// What `encode` returns for each result of the encoder.
pub open spec fn grid_of(encoded: Result<Seq<Seq<bool>>, Seq<char>>) -> Result<
    Seq<Seq<bool>>,
    Seq<char>,
> {
    match encoded {
        Ok(rows) => if is_square(rows) && rows.len() <= MAX_SIDE {
            Ok(rows)
        } else {
            Err("QR symbol is not square"@)
        },
        Err(message) => Err(message),
    }
}

/// The text of a grid or a message.
pub open spec fn grid_result_view(r: Result<ModuleGrid, String>) -> Result<
    Seq<Seq<bool>>,
    Seq<char>,
> {
    match r {
        Ok(grid) => Ok(grid@),
        Err(message) => Err(message@),
    }
}

/// Makes a grid of the rows that the encoder returned, and hands its message
/// on where it failed.
pub fn grid_from_encoding(encoded: Result<Vec<Vec<bool>>, String>) -> (r: Result<
    ModuleGrid,
    String,
>)
    ensures
        grid_result_view(r) == grid_of(encoding_view(encoded)),
{
    match encoded {
        Ok(rows) => match ModuleGrid::from_rows(rows) {
            Some(grid) => Ok(grid),
            None => Err("QR symbol is not square".to_string()),
        },
        Err(message) => Err(message),
    }
}

/// Encodes `text` as a QR code at the medium level of error correction.
pub fn encode(text: &str) -> (r: Result<ModuleGrid, String>)
    ensures
        grid_result_view(r) == qr_encoding(text@),
        r matches Ok(grid) ==> is_symbol(grid@),
{
    grid_from_encoding(encode_medium(text))
}

} // verus!
