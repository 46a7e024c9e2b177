use vstd::prelude::*;
use vstd::string::StringExecFns;

verus! {

/// The reasons for which a buffer is refused as an RTP header.
#[derive(Clone, Copy, Debug, PartialEq, Eq, Structural)]
pub enum RtpError {
    /// The buffer is shorter than the fixed twelve-byte header.
    HeaderTooSmall,
    /// Fewer bytes follow the fixed header than the declared CSRC identifiers need.
    InsufficientCsrcData,
    /// The extension flag is set but fewer than four bytes remain for the
    /// extension's id and length.
    ExtensionHeaderMissing,
    /// Fewer bytes follow the extension's id and length than its declared
    /// number of 32-bit words needs.
    InsufficientExtensionData,
}

impl RtpError {
    /// The text that `description` returns for each kind of error.
    pub open spec fn spec_description(self) -> Seq<char> {
        match self {
            RtpError::HeaderTooSmall => "Buffer is too small to contain a valid header."@,
            RtpError::InsufficientCsrcData =>
                "Buffer does not contain the specified number of CSRC identifiers."@,
            RtpError::ExtensionHeaderMissing => "Header extension does not contain required info."@,
            RtpError::InsufficientExtensionData =>
                "Header extension does not contain specified number of blocks."@,
        }
    }

    /// A human-readable account of the violated constraint.
    pub fn description(&self) -> (r: &'static str)
        ensures
            r@ == self.spec_description(),
    {
        match self {
            RtpError::HeaderTooSmall => "Buffer is too small to contain a valid header.",
            RtpError::InsufficientCsrcData =>
                "Buffer does not contain the specified number of CSRC identifiers.",
            RtpError::ExtensionHeaderMissing => "Header extension does not contain required info.",
            RtpError::InsufficientExtensionData =>
                "Header extension does not contain specified number of blocks.",
        }
    }

    /// The full message for this error: a fixed prefix, then its description.
    pub fn message(&self) -> (r: String)
        ensures
            r@ == "Header Error: "@ + self.spec_description(),
    {
        String::from_str("Header Error: ").concat(self.description())
    }
}

} // verus!
