//! Turns network-scan reports in XML markup into one flat CSV report of the
//! open ports they record. The extraction engine — walking the document
//! tree, validating required fields, projecting records and serializing
//! them — is verified; the XML text is turned into the library's tree by an
//! outside parser behind one trusted boundary.

pub mod extract;
pub mod laws;
pub mod num;
pub mod report;
pub mod xml;

pub use extract::ScanError;
pub use extract::ScanRecord;
pub use extract::TimeFrame;
pub use extract::extract_host;
pub use extract::parse_content;
pub use num::parse_u16;
pub use num::parse_u64;
pub use num::u64_to_string;
pub use report::process_contents;
pub use report::render_report;
pub use xml::Attr;
pub use xml::XmlNode;
