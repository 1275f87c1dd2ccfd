//! Errors that can occur when working with package names
use vstd::prelude::*;

use crate::names::ErrorReason;

verus! {

/// Errors that can occur when working with pesde package names
#[derive(Debug)]
pub enum PackageNameError {
    /// The package name is not in the format `scope/name`
    InvalidFormat(String),
    /// The package name is outside the allowed characters: a-z, 0-9, and _
    InvalidCharacters(ErrorReason, String),
    /// The package name contains only digits
    OnlyDigits(ErrorReason, String),
    /// The package name starts or ends with an underscore
    PrePostfixUnderscore(ErrorReason, String),
    /// The package name is not within 3-32 characters long
    InvalidLength(ErrorReason, String),
}

/// The mathematical value of a [`PackageNameError`]
pub enum PackageNameErrorView {
    InvalidFormat(Seq<char>),
    InvalidCharacters(ErrorReason, Seq<char>),
    OnlyDigits(ErrorReason, Seq<char>),
    PrePostfixUnderscore(ErrorReason, Seq<char>),
    InvalidLength(ErrorReason, Seq<char>),
}

impl View for PackageNameError {
    type V = PackageNameErrorView;

    open spec fn view(&self) -> PackageNameErrorView {
        match self {
            PackageNameError::InvalidFormat(s) => PackageNameErrorView::InvalidFormat(s@),
            PackageNameError::InvalidCharacters(r, s) => PackageNameErrorView::InvalidCharacters(*r, s@),
            PackageNameError::OnlyDigits(r, s) => PackageNameErrorView::OnlyDigits(*r, s@),
            PackageNameError::PrePostfixUnderscore(r, s) => PackageNameErrorView::PrePostfixUnderscore(*r, s@),
            PackageNameError::InvalidLength(r, s) => PackageNameErrorView::InvalidLength(*r, s@),
        }
    }
}

/// Errors that can occur when working with Wally package names
#[derive(Debug)]
pub enum WallyPackageNameError {
    /// The package name is not in the format `scope/name`
    InvalidFormat(String),
    /// The package name is outside the allowed characters: a-z, 0-9, and -
    InvalidCharacters(ErrorReason, String),
    /// The package name is not within 1-64 characters long
    InvalidLength(ErrorReason, String),
}

/// The mathematical value of a [`WallyPackageNameError`]
pub enum WallyPackageNameErrorView {
    InvalidFormat(Seq<char>),
    InvalidCharacters(ErrorReason, Seq<char>),
    InvalidLength(ErrorReason, Seq<char>),
}

impl View for WallyPackageNameError {
    type V = WallyPackageNameErrorView;

    open spec fn view(&self) -> WallyPackageNameErrorView {
        match self {
            WallyPackageNameError::InvalidFormat(s) => WallyPackageNameErrorView::InvalidFormat(s@),
            WallyPackageNameError::InvalidCharacters(r, s) => WallyPackageNameErrorView::InvalidCharacters(*r, s@),
            WallyPackageNameError::InvalidLength(r, s) => WallyPackageNameErrorView::InvalidLength(*r, s@),
        }
    }
}

/// Errors that can occur when working with package names
#[derive(Debug)]
#[non_exhaustive]
pub enum PackageNamesError {
    /// The package name is invalid
    InvalidPackageName(String),
}

impl View for PackageNamesError {
    type V = Seq<char>;

    open spec fn view(&self) -> Seq<char> {
        match self {
            PackageNamesError::InvalidPackageName(s) => s@,
        }
    }
}

} // verus!
