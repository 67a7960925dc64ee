//! The settings of the client: the connection string and the colour theme.

use vstd::prelude::*;

verus! {

/// A colour as red, green and blue.
pub type Rgb = [u8; 3];

/// The settings that the client starts with.
pub struct Config {
    /// The connection string of the database driver.
    pub connection_string: String,
    /// The colours of the theme.
    pub colors: ColorConfig,
}

/// The colours of the theme.
pub struct ColorConfig {
    // Editor colors
    pub editor_border: Rgb,
    pub editor_border_focus: Rgb,
    pub gutter_current: Rgb,
    pub gutter_relative: Rgb,
    pub caret_cell_fg: Rgb,
    pub caret_cell_bg: Rgb,
    pub selection_fg: Rgb,
    pub selection_bg: Rgb,
    pub bracket_match_bg: Rgb,
    // Results colors
    pub results_border: Rgb,
    pub results_border_focus: Rgb,
    pub tab_active: Rgb,
    pub header_row: Rgb,
    pub table_sel_fg: Rgb,
    pub table_sel_bg: Rgb,
    pub table_caret_fg: Rgb,
    pub table_caret_bg: Rgb,
    // Find/Search colors
    pub find_match_fg: Rgb,
    pub find_match_bg: Rgb,
    pub find_current_fg: Rgb,
    pub find_current_bg: Rgb,
    // Autocomplete colors
    pub autocomplete_bg: Rgb,
    pub autocomplete_border: Rgb,
    pub autocomplete_selected_fg: Rgb,
    pub autocomplete_selected_bg: Rgb,
    // UI colors
    pub help_bg: Rgb,
    pub help_border: Rgb,
    pub status_fg: Rgb,
    pub error_fg: Rgb,
    pub info_fg: Rgb,
    pub default_bg: Rgb,
    // Syntax highlighting
    pub syntax_keyword: Rgb,
    pub syntax_number: Rgb,
    pub syntax_string: Rgb,
    pub syntax_comment: Rgb,
    pub syntax_cast: Rgb,
    pub syntax_function: Rgb,
    pub syntax_variable: Rgb,
    pub syntax_plain: Rgb,
}

/// The colour with the given parts.
pub open spec fn rgb(c: Rgb, r: u8, g: u8, b: u8) -> bool {
    c[0] == r && c[1] == g && c[2] == b
}

/// The connection string of a client that was not set up yet.
pub open spec fn default_connection_string() -> Seq<char> {
    "Driver=SnowflakeDSIIDriver;Server=your-account.snowflakecomputing.com;UID=your-email@example.com;Authenticator=externalbrowser;Role=your_role;Warehouse=your_warehouse;Database=your_database;Schema=your_schema;"@
}

impl ColorConfig {
    /// The colours are those of the default theme.
    pub open spec fn is_default(&self) -> bool {
        &&& rgb(self.editor_border, 42, 42, 55)
        &&& rgb(self.editor_border_focus, 120, 120, 145)
        &&& rgb(self.gutter_current, 177, 135, 166)
        &&& rgb(self.gutter_relative, 84, 84, 109)
        &&& rgb(self.caret_cell_fg, 22, 22, 22)
        &&& rgb(self.caret_cell_bg, 238, 185, 225)
        &&& rgb(self.selection_fg, 200, 200, 200)
        &&& rgb(self.selection_bg, 54, 54, 70)
        &&& rgb(self.bracket_match_bg, 45, 79, 103)
        &&& rgb(self.results_border, 42, 42, 55)
        &&& rgb(self.results_border_focus, 120, 120, 145)
        &&& rgb(self.tab_active, 126, 156, 216)
        &&& rgb(self.header_row, 147, 138, 169)
        &&& rgb(self.table_sel_fg, 200, 200, 200)
        &&& rgb(self.table_sel_bg, 84, 84, 109)
        &&& rgb(self.table_caret_fg, 22, 22, 22)
        &&& rgb(self.table_caret_bg, 238, 185, 225)
        &&& rgb(self.find_match_fg, 22, 22, 22)
        &&& rgb(self.find_match_bg, 84, 54, 77)
        &&& rgb(self.find_current_fg, 22, 22, 22)
        &&& rgb(self.find_current_bg, 238, 185, 225)
        &&& rgb(self.autocomplete_bg, 30, 31, 40)
        &&& rgb(self.autocomplete_border, 84, 84, 109)
        &&& rgb(self.autocomplete_selected_fg, 22, 22, 22)
        &&& rgb(self.autocomplete_selected_bg, 238, 185, 225)
        &&& rgb(self.help_bg, 30, 31, 40)
        &&& rgb(self.help_border, 84, 84, 109)
        &&& rgb(self.status_fg, 84, 84, 109)
        &&& rgb(self.error_fg, 232, 36, 36)
        &&& rgb(self.info_fg, 126, 156, 216)
        &&& rgb(self.default_bg, 22, 22, 22)
        &&& rgb(self.syntax_keyword, 126, 156, 216)
        &&& rgb(self.syntax_number, 149, 127, 184)
        &&& rgb(self.syntax_string, 106, 149, 137)
        &&& rgb(self.syntax_comment, 84, 84, 109)
        &&& rgb(self.syntax_cast, 255, 160, 102)
        &&& rgb(self.syntax_function, 210, 126, 153)
        &&& rgb(self.syntax_variable, 230, 195, 132)
        &&& rgb(self.syntax_plain, 200, 200, 200)
    }
}

impl Default for ColorConfig {
    fn default() -> (c: Self)
        ensures
            c.is_default(),
    {
        ColorConfig {
            editor_border: [42, 42, 55],
            editor_border_focus: [120, 120, 145],
            gutter_current: [177, 135, 166],
            gutter_relative: [84, 84, 109],
            caret_cell_fg: [22, 22, 22],
            caret_cell_bg: [238, 185, 225],
            selection_fg: [200, 200, 200],
            selection_bg: [54, 54, 70],
            bracket_match_bg: [45, 79, 103],
            results_border: [42, 42, 55],
            results_border_focus: [120, 120, 145],
            tab_active: [126, 156, 216],
            header_row: [147, 138, 169],
            table_sel_fg: [200, 200, 200],
            table_sel_bg: [84, 84, 109],
            table_caret_fg: [22, 22, 22],
            table_caret_bg: [238, 185, 225],
            find_match_fg: [22, 22, 22],
            find_match_bg: [84, 54, 77],
            find_current_fg: [22, 22, 22],
            find_current_bg: [238, 185, 225],
            autocomplete_bg: [30, 31, 40],
            autocomplete_border: [84, 84, 109],
            autocomplete_selected_fg: [22, 22, 22],
            autocomplete_selected_bg: [238, 185, 225],
            help_bg: [30, 31, 40],
            help_border: [84, 84, 109],
            status_fg: [84, 84, 109],
            error_fg: [232, 36, 36],
            info_fg: [126, 156, 216],
            default_bg: [22, 22, 22],
            syntax_keyword: [126, 156, 216],
            syntax_number: [149, 127, 184],
            syntax_string: [106, 149, 137],
            syntax_comment: [84, 84, 109],
            syntax_cast: [255, 160, 102],
            syntax_function: [210, 126, 153],
            syntax_variable: [230, 195, 132],
            syntax_plain: [200, 200, 200],
        }
    }
}

impl Default for Config {
    fn default() -> (c: Self)
        ensures
            c.connection_string@ == default_connection_string(),
            c.colors.is_default(),
    {
        Config {
            connection_string: String::from_str(
                "Driver=SnowflakeDSIIDriver;Server=your-account.snowflakecomputing.com;UID=your-email@example.com;Authenticator=externalbrowser;Role=your_role;Warehouse=your_warehouse;Database=your_database;Schema=your_schema;",
            ),
            colors: ColorConfig::default(),
        }
    }
}

} // verus!
