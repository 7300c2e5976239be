//! Login application packets, legacy credential encryption, and server lists.
//!
//! DES-CBC exists only for legacy wire compatibility and provides no modern
//! confidentiality or integrity.

pub mod crypto;
pub mod error;
pub mod login;
pub mod server_list;
pub mod secret;

pub use crypto::{des_decrypt, des_encrypt, CryptoError, DesKeyIv, DEFAULT_DES_IV, DEFAULT_DES_KEY};
pub use error::LoginError;
pub use login::{
    build_combined_ack_then_packet, build_login_accepted_combined, build_login_combined,
    encrypt_login_credentials, is_bad_password_login_result, AppOp, LoginPacket,
    LOGIN_RESULT_FAILURE_STATUS,
};
pub use server_list::{build_server_list_response, parse_server_list, ServerEntry};
