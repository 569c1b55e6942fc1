use vstd::prelude::*;

verus! {

/// How much of what happens is written to the log.
#[derive(Clone, Copy, Debug, PartialEq, Eq, Hash, Structural)]
pub enum CliLevelFilter {
    Off,
    Error,
    Warn,
    Info,
    Debug,
    Trace,
}

/// The method of sorting plugins.
#[derive(Clone, Copy, Debug, PartialEq, Eq, Hash, Structural)]
pub enum SortOrder {
    /// By the last modified date of the files, master files first.
    Default,
    /// As the plugins are given.
    Unsorted,
}

/// What the tool is asked to do.
pub struct Cli {
    /// The directory containing the `Conflicts` folder.
    /// This is also where the `log_file` will be stored.
    pub merged_lands_dir: String,
    /// The absolute or relative path to the `Data Files` folder containing plugins.
    pub data_files_dir: String,
    /// The name of the output file. This will be written to `output_file_dir`.
    pub output_file: String,
    /// The directory for the `output_file`.
    /// If not provided, this is the same as `data_files_dir`.
    pub output_file_dir: Option<String>,
    /// An ordered list of plugins.
    /// If this is not provided, the plugins are read from the file that lists the active
    /// plugins in the directory above the `Data Files`.
    pub input_file_names: Vec<String>,
    /// The method of sorting plugins.
    /// To leave the plugins as they are given is only valid if `input_file_names` are provided.
    pub sort_order: SortOrder,
    /// The name of the log file. This will be written to `merged_lands_dir`.
    pub log_file: String,
    /// The level of logging.
    /// If set to Off, no log will will be written.
    pub log_level: CliLevelFilter,
    /// The size of the application's stack in MB.
    pub stack_size_mb: u8,
    /// All cell records are left out when this flag is provided.
    pub remove_cell_records: bool,
    /// The vertex colors of the landscapes are painted to show conflicts.
    pub add_debug_vertex_colors: bool,
    /// The application will wait for the user to hit the ENTER key before closing.
    pub wait_for_exit: bool,
}

impl Cli {
    /// The plugins that were given, if any were.
    pub fn plugins(&self) -> (r: Option<&Vec<String>>)
        ensures
            r.is_some() == (self.input_file_names@.len() > 0),
            r matches Some(plugins) ==> *plugins == self.input_file_names,
    {
        if self.input_file_names.len() > 0 {
            Some(&self.input_file_names)
        } else {
            None
        }
    }

    /// Whether a log file is to be written.
    pub fn should_write_log_file(&self) -> (r: bool)
        ensures
            r == (self.log_level != CliLevelFilter::Off),
    {
        self.log_level != CliLevelFilter::Off
    }

    /// The directory containing the `Conflicts` folder.
    pub fn merged_lands_dir(&self) -> (r: &String)
        ensures
            *r == self.merged_lands_dir,
    {
        &self.merged_lands_dir
    }

    /// The directory that holds the plugins.
    pub fn data_files_dir(&self) -> (r: &String)
        ensures
            *r == self.data_files_dir,
    {
        &self.data_files_dir
    }

    /// The directory for the output file: the one that was given, or else the directory that
    /// holds the plugins.
    pub fn output_file_dir(&self) -> (r: &String)
        ensures
            *r == match self.output_file_dir {
                Some(dir) => dir,
                None => self.data_files_dir,
            },
    {
        match &self.output_file_dir {
            Some(dir) => dir,
            None => &self.data_files_dir,
        }
    }

    /// The size of the application's stack in bytes.
    pub fn stack_size(&self) -> (r: usize)
        ensures
            r == self.stack_size_mb * 1024 * 1024,
    {
        (self.stack_size_mb as usize) * 1024 * 1024
    }
}

} // verus!
