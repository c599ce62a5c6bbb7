use vstd::prelude::*;
use crate::ids::{SourceRange, StringIndex};
use crate::syms::ty::Sym;

verus! {

/// The errors that name resolution and type checking record.
#[derive(Clone, Copy, Debug, PartialEq, Eq, Structural)]
pub enum Error {
    IteratorFunctionInvalidSig(SourceRange),
    InvalidCast { range: SourceRange, from_ty: Sym, to_ty: Sym },
    DerefOnNonPtr(SourceRange),
    UnknownAttr(SourceRange, StringIndex),
    NameIsAlreadyDefined { source: SourceRange, name: StringIndex },
    PrivateSymbol { source: SourceRange, name: StringIndex },
    UnknownType(StringIndex, SourceRange),
    FunctionBodyAndReturnMismatch { header: SourceRange, item: SourceRange, return_type: Sym, body_type: Sym },
    OutsideOfAFunction { source: SourceRange },
    InvalidType { source: SourceRange, found: Sym, expected: Sym },
    DuplicateField { declared_at: SourceRange, error_point: SourceRange },
    DuplicateArg { declared_at: SourceRange, error_point: SourceRange },
    VariableValueAndHintDiffer { value_type: Sym, hint_type: Sym, source: SourceRange },
    VariableValueNotTuple(SourceRange),
    VariableTupleAndHintTupleSizeMismatch(SourceRange, usize, usize),
    VariableNotFound { name: StringIndex, source: SourceRange },
    IfMissingElse { body: Branch },
    IfBodyAndElseMismatch { body: Branch, else_block: Branch },
    MatchValueIsntEnum { source: SourceRange, typ: Sym },
    MatchBranchesDifferInReturnType { initial_source: SourceRange, initial_typ: Sym, branch_source: SourceRange, branch_typ: Sym },
    DuplicateMatch { declared_at: SourceRange, error_point: SourceRange },
    InvalidMatch { name: StringIndex, range: SourceRange, value: Sym },
    ValueIsntAnIterator { ty: Sym, range: SourceRange },
    StructCreationOnNonStruct { source: SourceRange, typ: Sym },
    FieldAccessOnNonEnumOrStruct { source: SourceRange, typ: Sym },
    FieldDoesntExist { source: SourceRange, field: StringIndex, typ: Sym },
    FunctionNotFound { source: SourceRange, name: StringIndex },
    BindedFunctionNotFound { source: SourceRange, name: StringIndex, bind: Sym },
    FunctionArgsMismatch { source: SourceRange, sig_len: usize, call_len: usize },
    NamespaceNotFound { source: SourceRange, namespace: StringIndex },
    ValueUpdateTypeMismatch { lhs: Sym, rhs: Sym, source: SourceRange },
    ContinueOutsideOfLoop(SourceRange),
    BreakOutsideOfLoop(SourceRange),
    CantUnwrapOnGivenType(SourceRange, Sym),
    CantTryOnGivenType(SourceRange, Sym),
    FunctionDoesntReturnAnOption { source: SourceRange, func_typ: Sym },
    FunctionDoesntReturnAResult { source: SourceRange, func_typ: Sym },
    FunctionReturnsAResultButTheErrIsntTheSame { source: SourceRange, func_source: SourceRange, func_err_typ: Sym, err_typ: Sym },
    ReturnAndFuncTypDiffer { source: SourceRange, func_source: SourceRange, typ: Sym, func_typ: Sym },
    AssignIsNotLHSValue { source: SourceRange },
    UnableToInfer(SourceRange),
    InvalidRange { source: SourceRange, ty: Sym },
    ImplOnGeneric(SourceRange),
    GenericLenMismatch { source: SourceRange, found: usize, expected: usize },
    CantUseHoleHere { source: SourceRange },
    NameIsReservedForFunctions { source: SourceRange },
    InvalidSystem(SourceRange),
    IndexOnNonList(SourceRange, Sym),
    Bypass,
    CallOnNonFunction { source: SourceRange, name: StringIndex },
}

/// A branch of an `if`: where it is, and the type it produces.
#[derive(Clone, Copy, Debug, PartialEq, Eq, Structural)]
pub struct Branch(pub SourceRange, pub Sym);

/// The headline of a reported error.
#[derive(Clone, Copy, Debug, PartialEq, Eq, Structural)]
pub enum ErrorTitle {
    IteratorFunctionInvalidSig,
    InvalidCast,
    DerefOnNonPtr,
    UnknownAttr,
    NameIsAlreadyDefined,
    PrivateSymbol,
    UnknownType,
    FunctionBodyAndReturnMismatch,
    OutsideOfAFunction,
    InvalidType,
    DuplicateField,
    DuplicateArg,
    VariableValueAndHintDiffer,
    VariableValueNotTuple,
    VariableNotFound,
    IfMissingElse,
    IfBodyAndElseMismatch,
    MatchValueIsntEnum,
    MatchBranchesDifferInReturnType,
    DuplicateMatch,
    InvalidMatch,
    ValueIsntAnIterator,
    StructCreationOnNonStruct,
    FieldAccessOnNonEnumOrStruct,
    FieldDoesntExist,
    FunctionNotFound,
    BindedFunctionNotFound,
    FunctionArgsMismatch,
    NamespaceNotFound,
    ValueUpdateTypeMismatch,
    ContinueOutsideOfLoop,
    BreakOutsideOfLoop,
    CantUnwrapOnGivenType,
    CantTryOnGivenType,
    FunctionDoesntReturnAnOption,
    FunctionDoesntReturnAResult,
    FunctionReturnsAResultButTheErrIsntTheSame,
    ReturnAndFuncTypDiffer,
    AssignIsNotLHSValue,
    UnableToInfer,
    InvalidRange,
    ImplOnGeneric,
    GenericLenMismatch,
    CantUseHoleHere,
    NameIsReservedForFunctions,
    InvalidSystem,
    IndexOnNonList,
    CallOnNonFunction,
}

/// The note shown at a highlighted range; names are shown as the strings
/// they intern, types as they display.
#[derive(Clone, Copy, Debug, PartialEq, Eq, Structural)]
pub enum Note {
    /// there's already a symbol with the name '{0}'
    AlreadyASymbolNamed(StringIndex),
    /// the symbol '{0}' is private
    SymbolIsPrivate(StringIndex),
    /// there's no type named '{0}'
    NoTypeNamed(StringIndex),
    /// expected a value of type '{expected}' but found '{found}'
    ExpectedButFound { expected: Sym, found: Sym },
    /// the function returns '{0}'
    FunctionReturns(Sym),
    /// but the body returns '{0}'
    ButBodyReturns(Sym),
    /// the field is declared here
    FieldDeclaredHere,
    /// the argument is declared here
    ArgumentDeclaredHere,
    /// the variant is first declared here
    VariantFirstDeclaredHere,
    /// ..but it's redeclared here
    RedeclaredHere,
    /// the value is '{value}' but the hint is '{hint}'
    ValueAndHint { value: Sym, hint: Sym },
    /// no variable named '{0}'
    NoVariableNamed(StringIndex),
    /// the main branch returns '{0}' but there's no else branch
    MainBranchWithoutElse(Sym),
    /// the main branch returns '{0}'
    MainBranchReturns(Sym),
    /// but the else branch returns '{0}'
    ButElseReturns(Sym),
    /// is of type '{0}' which is not an enum
    NotAnEnum(Sym),
    /// is of type '{0}'
    IsOfType(Sym),
    /// ..returns '{0}'
    Returns(Sym),
    /// ..but this returns '{0}'
    ButThisReturns(Sym),
    /// there's no variant named '{name}' in '{value}'
    NoVariantNamed { name: StringIndex, value: Sym },
    /// '{0}' is not an iterator
    NotAnIterator(Sym),
    /// ..is of type '{0}' which is neither a struct or an enum
    NeitherStructNorEnum(Sym),
    /// the type '{typ}' doesn't have a field named '{field}'
    NoFieldNamed { typ: Sym, field: StringIndex },
    /// there's no function named '{0}' in the current scope
    NoFunctionNamed(StringIndex),
    /// the symbol named '{0}' isn't a function
    NotAFunction(StringIndex),
    /// there's no function named '{name}' in the namespace of '{bind}'
    NoAssociatedFunction { name: StringIndex, bind: Sym },
    /// function has {sig_len} argument(s) but you've provided {call_len} argument(s)
    ArgumentCounts { sig_len: usize, call_len: usize },
    /// there's no namespace named '{0}' in the current scope
    NoNamespaceNamed(StringIndex),
    /// lhs is '{lhs}' while the rhs is '{rhs}'
    LhsAndRhs { lhs: Sym, rhs: Sym },
    /// ..is of type '{0}'
    ValueIsOfType(Sym),
    /// ..because of this expected the function to return an option but the function returns '{0}'
    ExpectedOptionReturn(Sym),
    /// ..because of this expected the function to return a result but the function returns '{0}'
    ExpectedResultReturn(Sym),
    /// the error type is '{0}'
    ErrorTypeIs(Sym),
    /// ..but the error type of the function is '{0}'
    ButFunctionErrorTypeIs(Sym),
    /// ..but the function returns '{0}'
    ButFunctionReturns(Sym),
    /// can't cast '{from}' to '{to}'
    CantCast { from: Sym, to: Sym },
    /// signature must match 'fn __next__(&self): Option<[type]>`
    IteratorSignature,
    /// try specifying it's generics
    SpecifyGenerics,
    /// range bounds can only be integers but you provided '{0}'
    RangeBoundsMustBeIntegers(Sym),
    /// the type has {expected} generics but you've provided {found}
    GenericCounts { expected: usize, found: usize },
    /// indexing is not available on '{0}'
    NoIndexingOn(Sym),
}

/// What is reported for an error: its headline, and each range to
/// highlight, with its note if it has one.
pub struct ErrorMessage {
    pub title: ErrorTitle,
    pub highlights: Vec<(SourceRange, Option<Note>)>,
}

/// The headline and highlights reported for `e`; `Bypass` reports nothing,
/// as it stands for an error reported already.
pub open spec fn spec_message(e: Error) -> Option<(ErrorTitle, Seq<(SourceRange, Option<Note>)>)> {
    match e {
        Error::IteratorFunctionInvalidSig(v) => Some((ErrorTitle::IteratorFunctionInvalidSig, seq![(v, Some(Note::IteratorSignature))])),
        Error::InvalidCast { range, from_ty, to_ty } => Some((ErrorTitle::InvalidCast, seq![(range, Some(Note::CantCast { from: from_ty, to: to_ty }))])),
        Error::DerefOnNonPtr(v) => Some((ErrorTitle::DerefOnNonPtr, seq![(v, None)])),
        Error::UnknownAttr(source, _) => Some((ErrorTitle::UnknownAttr, seq![(source, None)])),
        Error::NameIsAlreadyDefined { source, name } => Some((ErrorTitle::NameIsAlreadyDefined, seq![(source, Some(Note::AlreadyASymbolNamed(name)))])),
        Error::PrivateSymbol { source, name } => Some((ErrorTitle::PrivateSymbol, seq![(source, Some(Note::SymbolIsPrivate(name)))])),
        Error::UnknownType(name, pos) => Some((ErrorTitle::UnknownType, seq![(pos, Some(Note::NoTypeNamed(name)))])),
        Error::FunctionBodyAndReturnMismatch { header, item, return_type, body_type } => Some((ErrorTitle::FunctionBodyAndReturnMismatch, seq![(header, Some(Note::FunctionReturns(return_type))), (item, Some(Note::ButBodyReturns(body_type)))])),
        Error::OutsideOfAFunction { source } => Some((ErrorTitle::OutsideOfAFunction, seq![(source, None)])),
        Error::InvalidType { source, found, expected } => Some((ErrorTitle::InvalidType, seq![(source, Some(Note::ExpectedButFound { expected, found }))])),
        Error::DuplicateField { declared_at, error_point } => Some((ErrorTitle::DuplicateField, seq![(declared_at, Some(Note::FieldDeclaredHere)), (error_point, Some(Note::RedeclaredHere))])),
        Error::DuplicateArg { declared_at, error_point } => Some((ErrorTitle::DuplicateArg, seq![(declared_at, Some(Note::ArgumentDeclaredHere)), (error_point, Some(Note::RedeclaredHere))])),
        Error::VariableValueAndHintDiffer { value_type, hint_type, source } => Some((ErrorTitle::VariableValueAndHintDiffer, seq![(source, Some(Note::ValueAndHint { value: value_type, hint: hint_type }))])),
        Error::VariableValueNotTuple(s) => Some((ErrorTitle::VariableValueNotTuple, seq![(s, None)])),
        Error::VariableNotFound { name, source } => Some((ErrorTitle::VariableNotFound, seq![(source, Some(Note::NoVariableNamed(name)))])),
        Error::IfMissingElse { body } => Some((ErrorTitle::IfMissingElse, seq![(body.0, Some(Note::MainBranchWithoutElse(body.1)))])),
        Error::IfBodyAndElseMismatch { body, else_block } => Some((ErrorTitle::IfBodyAndElseMismatch, seq![(body.0, Some(Note::MainBranchReturns(body.1))), (else_block.0, Some(Note::ButElseReturns(else_block.1)))])),
        Error::MatchValueIsntEnum { source, typ } => Some((ErrorTitle::MatchValueIsntEnum, seq![(source, Some(Note::NotAnEnum(typ)))])),
        Error::MatchBranchesDifferInReturnType { initial_source, initial_typ, branch_source, branch_typ } => Some((ErrorTitle::MatchBranchesDifferInReturnType, seq![(initial_source, Some(Note::Returns(initial_typ))), (branch_source, Some(Note::ButThisReturns(branch_typ)))])),
        Error::DuplicateMatch { declared_at, error_point } => Some((ErrorTitle::DuplicateMatch, seq![(declared_at, Some(Note::VariantFirstDeclaredHere)), (error_point, Some(Note::RedeclaredHere))])),
        Error::InvalidMatch { name, range, value } => Some((ErrorTitle::InvalidMatch, seq![(range, Some(Note::NoVariantNamed { name, value }))])),
        Error::ValueIsntAnIterator { ty, range } => Some((ErrorTitle::ValueIsntAnIterator, seq![(range, Some(Note::NotAnIterator(ty)))])),
        Error::StructCreationOnNonStruct { source, typ } => Some((ErrorTitle::StructCreationOnNonStruct, seq![(source, Some(Note::IsOfType(typ)))])),
        Error::FieldAccessOnNonEnumOrStruct { source, typ } => Some((ErrorTitle::FieldAccessOnNonEnumOrStruct, seq![(source, Some(Note::NeitherStructNorEnum(typ)))])),
        Error::FieldDoesntExist { source, field, typ } => Some((ErrorTitle::FieldDoesntExist, seq![(source, Some(Note::NoFieldNamed { typ, field }))])),
        Error::FunctionNotFound { source, name } => Some((ErrorTitle::FunctionNotFound, seq![(source, Some(Note::NoFunctionNamed(name)))])),
        Error::BindedFunctionNotFound { source, name, bind } => Some((ErrorTitle::BindedFunctionNotFound, seq![(source, Some(Note::NoAssociatedFunction { name, bind }))])),
        Error::FunctionArgsMismatch { source, sig_len, call_len } => Some((ErrorTitle::FunctionArgsMismatch, seq![(source, Some(Note::ArgumentCounts { sig_len, call_len }))])),
        Error::NamespaceNotFound { source, namespace } => Some((ErrorTitle::NamespaceNotFound, seq![(source, Some(Note::NoNamespaceNamed(namespace)))])),
        Error::ValueUpdateTypeMismatch { lhs, rhs, source } => Some((ErrorTitle::ValueUpdateTypeMismatch, seq![(source, Some(Note::LhsAndRhs { lhs, rhs }))])),
        Error::ContinueOutsideOfLoop(v) => Some((ErrorTitle::ContinueOutsideOfLoop, seq![(v, None)])),
        Error::BreakOutsideOfLoop(v) => Some((ErrorTitle::BreakOutsideOfLoop, seq![(v, None)])),
        Error::CantUnwrapOnGivenType(s, t) => Some((ErrorTitle::CantUnwrapOnGivenType, seq![(s, Some(Note::ValueIsOfType(t)))])),
        Error::CantTryOnGivenType(s, t) => Some((ErrorTitle::CantTryOnGivenType, seq![(s, Some(Note::ValueIsOfType(t)))])),
        Error::FunctionDoesntReturnAnOption { source, func_typ } => Some((ErrorTitle::FunctionDoesntReturnAnOption, seq![(source, Some(Note::ExpectedOptionReturn(func_typ)))])),
        Error::FunctionDoesntReturnAResult { source, func_typ } => Some((ErrorTitle::FunctionDoesntReturnAResult, seq![(source, Some(Note::ExpectedResultReturn(func_typ)))])),
        Error::FunctionReturnsAResultButTheErrIsntTheSame { source, func_source, func_err_typ, err_typ } => Some((ErrorTitle::FunctionReturnsAResultButTheErrIsntTheSame, seq![(source, Some(Note::ErrorTypeIs(err_typ))), (func_source, Some(Note::ButFunctionErrorTypeIs(func_err_typ)))])),
        Error::ReturnAndFuncTypDiffer { source, func_source, typ, func_typ } => Some((ErrorTitle::ReturnAndFuncTypDiffer, seq![(source, Some(Note::ValueIsOfType(typ))), (func_source, Some(Note::ButFunctionReturns(func_typ)))])),
        Error::AssignIsNotLHSValue { source } => Some((ErrorTitle::AssignIsNotLHSValue, seq![(source, None)])),
        Error::UnableToInfer(v) => Some((ErrorTitle::UnableToInfer, seq![(v, Some(Note::SpecifyGenerics))])),
        Error::InvalidRange { source, ty } => Some((ErrorTitle::InvalidRange, seq![(source, Some(Note::RangeBoundsMustBeIntegers(ty)))])),
        Error::ImplOnGeneric(s) => Some((ErrorTitle::ImplOnGeneric, seq![(s, None)])),
        Error::GenericLenMismatch { source, found, expected } => Some((ErrorTitle::GenericLenMismatch, seq![(source, Some(Note::GenericCounts { expected, found }))])),
        Error::CantUseHoleHere { source } => Some((ErrorTitle::CantUseHoleHere, seq![(source, None)])),
        Error::NameIsReservedForFunctions { source } => Some((ErrorTitle::NameIsReservedForFunctions, seq![(source, None)])),
        Error::InvalidSystem(v) => Some((ErrorTitle::InvalidSystem, seq![(v, None)])),
        Error::IndexOnNonList(range, sym) => Some((ErrorTitle::IndexOnNonList, seq![(range, Some(Note::NoIndexingOn(sym)))])),
        Error::CallOnNonFunction { source, name } => Some((ErrorTitle::CallOnNonFunction, seq![(source, Some(Note::NotAFunction(name)))])),
        Error::Bypass => None,
        _ => None,
    }
}

impl Error {
    /// What to report for this error; `None` for `Bypass`. The tuple-size
    /// mismatch of a variable and its hint has no report.
    pub fn message(&self) -> (r: Option<ErrorMessage>)
        requires
            !(*self is VariableTupleAndHintTupleSizeMismatch),
        ensures
            match spec_message(*self) {
                Some((t, h)) => r matches Some(m) && m.title == t && m.highlights@ == h,
                None => r is None,
            },
    {
        let (title, first, second): (ErrorTitle, (SourceRange, Option<Note>), Option<(SourceRange, Option<Note>)>) = match *self {
            Error::IteratorFunctionInvalidSig(v) => (ErrorTitle::IteratorFunctionInvalidSig, (v, Some(Note::IteratorSignature)), None),
            Error::InvalidCast { range, from_ty, to_ty } => (ErrorTitle::InvalidCast, (range, Some(Note::CantCast { from: from_ty, to: to_ty })), None),
            Error::DerefOnNonPtr(v) => (ErrorTitle::DerefOnNonPtr, (v, None), None),
            Error::UnknownAttr(source, _) => (ErrorTitle::UnknownAttr, (source, None), None),
            Error::NameIsAlreadyDefined { source, name } => (ErrorTitle::NameIsAlreadyDefined, (source, Some(Note::AlreadyASymbolNamed(name))), None),
            Error::PrivateSymbol { source, name } => (ErrorTitle::PrivateSymbol, (source, Some(Note::SymbolIsPrivate(name))), None),
            Error::UnknownType(name, pos) => (ErrorTitle::UnknownType, (pos, Some(Note::NoTypeNamed(name))), None),
            Error::FunctionBodyAndReturnMismatch { header, item, return_type, body_type } => (ErrorTitle::FunctionBodyAndReturnMismatch, (header, Some(Note::FunctionReturns(return_type))), Some((item, Some(Note::ButBodyReturns(body_type))))),
            Error::OutsideOfAFunction { source } => (ErrorTitle::OutsideOfAFunction, (source, None), None),
            Error::InvalidType { source, found, expected } => (ErrorTitle::InvalidType, (source, Some(Note::ExpectedButFound { expected, found })), None),
            Error::DuplicateField { declared_at, error_point } => (ErrorTitle::DuplicateField, (declared_at, Some(Note::FieldDeclaredHere)), Some((error_point, Some(Note::RedeclaredHere)))),
            Error::DuplicateArg { declared_at, error_point } => (ErrorTitle::DuplicateArg, (declared_at, Some(Note::ArgumentDeclaredHere)), Some((error_point, Some(Note::RedeclaredHere)))),
            Error::VariableValueAndHintDiffer { value_type, hint_type, source } => (ErrorTitle::VariableValueAndHintDiffer, (source, Some(Note::ValueAndHint { value: value_type, hint: hint_type })), None),
            Error::VariableValueNotTuple(s) => (ErrorTitle::VariableValueNotTuple, (s, None), None),
            Error::VariableNotFound { name, source } => (ErrorTitle::VariableNotFound, (source, Some(Note::NoVariableNamed(name))), None),
            Error::IfMissingElse { body } => (ErrorTitle::IfMissingElse, (body.0, Some(Note::MainBranchWithoutElse(body.1))), None),
            Error::IfBodyAndElseMismatch { body, else_block } => (ErrorTitle::IfBodyAndElseMismatch, (body.0, Some(Note::MainBranchReturns(body.1))), Some((else_block.0, Some(Note::ButElseReturns(else_block.1))))),
            Error::MatchValueIsntEnum { source, typ } => (ErrorTitle::MatchValueIsntEnum, (source, Some(Note::NotAnEnum(typ))), None),
            Error::MatchBranchesDifferInReturnType { initial_source, initial_typ, branch_source, branch_typ } => (ErrorTitle::MatchBranchesDifferInReturnType, (initial_source, Some(Note::Returns(initial_typ))), Some((branch_source, Some(Note::ButThisReturns(branch_typ))))),
            Error::DuplicateMatch { declared_at, error_point } => (ErrorTitle::DuplicateMatch, (declared_at, Some(Note::VariantFirstDeclaredHere)), Some((error_point, Some(Note::RedeclaredHere)))),
            Error::InvalidMatch { name, range, value } => (ErrorTitle::InvalidMatch, (range, Some(Note::NoVariantNamed { name, value })), None),
            Error::ValueIsntAnIterator { ty, range } => (ErrorTitle::ValueIsntAnIterator, (range, Some(Note::NotAnIterator(ty))), None),
            Error::StructCreationOnNonStruct { source, typ } => (ErrorTitle::StructCreationOnNonStruct, (source, Some(Note::IsOfType(typ))), None),
            Error::FieldAccessOnNonEnumOrStruct { source, typ } => (ErrorTitle::FieldAccessOnNonEnumOrStruct, (source, Some(Note::NeitherStructNorEnum(typ))), None),
            Error::FieldDoesntExist { source, field, typ } => (ErrorTitle::FieldDoesntExist, (source, Some(Note::NoFieldNamed { typ, field })), None),
            Error::FunctionNotFound { source, name } => (ErrorTitle::FunctionNotFound, (source, Some(Note::NoFunctionNamed(name))), None),
            Error::BindedFunctionNotFound { source, name, bind } => (ErrorTitle::BindedFunctionNotFound, (source, Some(Note::NoAssociatedFunction { name, bind })), None),
            Error::FunctionArgsMismatch { source, sig_len, call_len } => (ErrorTitle::FunctionArgsMismatch, (source, Some(Note::ArgumentCounts { sig_len, call_len })), None),
            Error::NamespaceNotFound { source, namespace } => (ErrorTitle::NamespaceNotFound, (source, Some(Note::NoNamespaceNamed(namespace))), None),
            Error::ValueUpdateTypeMismatch { lhs, rhs, source } => (ErrorTitle::ValueUpdateTypeMismatch, (source, Some(Note::LhsAndRhs { lhs, rhs })), None),
            Error::ContinueOutsideOfLoop(v) => (ErrorTitle::ContinueOutsideOfLoop, (v, None), None),
            Error::BreakOutsideOfLoop(v) => (ErrorTitle::BreakOutsideOfLoop, (v, None), None),
            Error::CantUnwrapOnGivenType(s, t) => (ErrorTitle::CantUnwrapOnGivenType, (s, Some(Note::ValueIsOfType(t))), None),
            Error::CantTryOnGivenType(s, t) => (ErrorTitle::CantTryOnGivenType, (s, Some(Note::ValueIsOfType(t))), None),
            Error::FunctionDoesntReturnAnOption { source, func_typ } => (ErrorTitle::FunctionDoesntReturnAnOption, (source, Some(Note::ExpectedOptionReturn(func_typ))), None),
            Error::FunctionDoesntReturnAResult { source, func_typ } => (ErrorTitle::FunctionDoesntReturnAResult, (source, Some(Note::ExpectedResultReturn(func_typ))), None),
            Error::FunctionReturnsAResultButTheErrIsntTheSame { source, func_source, func_err_typ, err_typ } => (ErrorTitle::FunctionReturnsAResultButTheErrIsntTheSame, (source, Some(Note::ErrorTypeIs(err_typ))), Some((func_source, Some(Note::ButFunctionErrorTypeIs(func_err_typ))))),
            Error::ReturnAndFuncTypDiffer { source, func_source, typ, func_typ } => (ErrorTitle::ReturnAndFuncTypDiffer, (source, Some(Note::ValueIsOfType(typ))), Some((func_source, Some(Note::ButFunctionReturns(func_typ))))),
            Error::AssignIsNotLHSValue { source } => (ErrorTitle::AssignIsNotLHSValue, (source, None), None),
            Error::UnableToInfer(v) => (ErrorTitle::UnableToInfer, (v, Some(Note::SpecifyGenerics)), None),
            Error::InvalidRange { source, ty } => (ErrorTitle::InvalidRange, (source, Some(Note::RangeBoundsMustBeIntegers(ty))), None),
            Error::ImplOnGeneric(s) => (ErrorTitle::ImplOnGeneric, (s, None), None),
            Error::GenericLenMismatch { source, found, expected } => (ErrorTitle::GenericLenMismatch, (source, Some(Note::GenericCounts { expected, found })), None),
            Error::CantUseHoleHere { source } => (ErrorTitle::CantUseHoleHere, (source, None), None),
            Error::NameIsReservedForFunctions { source } => (ErrorTitle::NameIsReservedForFunctions, (source, None), None),
            Error::InvalidSystem(v) => (ErrorTitle::InvalidSystem, (v, None), None),
            Error::IndexOnNonList(range, sym) => (ErrorTitle::IndexOnNonList, (range, Some(Note::NoIndexingOn(sym))), None),
            Error::CallOnNonFunction { source, name } => (ErrorTitle::CallOnNonFunction, (source, Some(Note::NotAFunction(name))), None),
            Error::Bypass => {
                return None;
            },
            Error::VariableTupleAndHintTupleSizeMismatch(..) => {
                return None;
            },
        };
        let mut highlights: Vec<(SourceRange, Option<Note>)> = Vec::new();
        highlights.push(first);
        match second {
            Some(h) => highlights.push(h),
            None => {},
        }
        proof {
            match second {
                Some(h) => assert(highlights@ =~= seq![first, h]),
                None => assert(highlights@ =~= seq![first]),
            }
        }
        Some(ErrorMessage { title, highlights })
    }
}

impl ErrorTitle {
    /// The headline as shown.
    pub fn text(&self) -> (r: &'static str)
        ensures
            r@ == self.spec_text(),
    {
        match *self {
            ErrorTitle::IteratorFunctionInvalidSig => "invalid iterator function signature",
            ErrorTitle::InvalidCast => "invalid as cast",
            ErrorTitle::DerefOnNonPtr => "deref on non pointer",
            ErrorTitle::UnknownAttr => "unknown attribute",
            ErrorTitle::NameIsAlreadyDefined => "name is already defined",
            ErrorTitle::PrivateSymbol => "symbol is private",
            ErrorTitle::UnknownType => "unknown type",
            ErrorTitle::FunctionBodyAndReturnMismatch => "function's return type and the body mismatch",
            ErrorTitle::OutsideOfAFunction => "this operation can't be performed outside of a function",
            ErrorTitle::InvalidType => "invalid type",
            ErrorTitle::DuplicateField => "duplicate field",
            ErrorTitle::DuplicateArg => "duplicate argument",
            ErrorTitle::VariableValueAndHintDiffer => "variable type & hint differ in types",
            ErrorTitle::VariableValueNotTuple => "variable value is not a tuple",
            ErrorTitle::VariableNotFound => "variable not found",
            ErrorTitle::IfMissingElse => "if is missing an else case",
            ErrorTitle::IfBodyAndElseMismatch => "if branches differ in types",
            ErrorTitle::MatchValueIsntEnum => "match value isn't an enum",
            ErrorTitle::MatchBranchesDifferInReturnType => "match branches differ in return types",
            ErrorTitle::DuplicateMatch => "duplicate match variant",
            ErrorTitle::InvalidMatch => "invalid match variant",
            ErrorTitle::ValueIsntAnIterator => "expression isn't an iterator",
            ErrorTitle::StructCreationOnNonStruct => "struct creation on a type which is not a struct",
            ErrorTitle::FieldAccessOnNonEnumOrStruct => "can't access fields on this type",
            ErrorTitle::FieldDoesntExist => "field doesn't exist",
            ErrorTitle::FunctionNotFound => "function not found",
            ErrorTitle::BindedFunctionNotFound => "associated function not found",
            ErrorTitle::FunctionArgsMismatch => "function argument count mismatch",
            ErrorTitle::NamespaceNotFound => "namespace not found",
            ErrorTitle::ValueUpdateTypeMismatch => "can't update a value with a different type",
            ErrorTitle::ContinueOutsideOfLoop => "continue outside of loop",
            ErrorTitle::BreakOutsideOfLoop => "break outside of loop",
            ErrorTitle::CantUnwrapOnGivenType => "can't unwrap on given type",
            ErrorTitle::CantTryOnGivenType => "can't try on given type",
            ErrorTitle::FunctionDoesntReturnAnOption => "function doesn't return an option",
            ErrorTitle::FunctionDoesntReturnAResult => "function doesn't return a result ",
            ErrorTitle::FunctionReturnsAResultButTheErrIsntTheSame => "result error types differ",
            ErrorTitle::ReturnAndFuncTypDiffer => "return and function return type differ",
            ErrorTitle::AssignIsNotLHSValue => "this is not a valid lhs expression",
            ErrorTitle::UnableToInfer => "unable to infer type",
            ErrorTitle::InvalidRange => "invalid range bound",
            ErrorTitle::ImplOnGeneric => "can't impl on a generic",
            ErrorTitle::GenericLenMismatch => "generic length mismatch",
            ErrorTitle::CantUseHoleHere => "can't use the hole ('_') here",
            ErrorTitle::NameIsReservedForFunctions => "this name is reserved for an overwritable function",
            ErrorTitle::InvalidSystem => "system functions must be outside of an impl block & not have any generics",
            ErrorTitle::IndexOnNonList => "indexing on non-list value",
            ErrorTitle::CallOnNonFunction => "call on non-function",
        }
    }

    pub open spec fn spec_text(&self) -> Seq<char> {
        match *self {
            ErrorTitle::IteratorFunctionInvalidSig => "invalid iterator function signature"@,
            ErrorTitle::InvalidCast => "invalid as cast"@,
            ErrorTitle::DerefOnNonPtr => "deref on non pointer"@,
            ErrorTitle::UnknownAttr => "unknown attribute"@,
            ErrorTitle::NameIsAlreadyDefined => "name is already defined"@,
            ErrorTitle::PrivateSymbol => "symbol is private"@,
            ErrorTitle::UnknownType => "unknown type"@,
            ErrorTitle::FunctionBodyAndReturnMismatch => "function's return type and the body mismatch"@,
            ErrorTitle::OutsideOfAFunction => "this operation can't be performed outside of a function"@,
            ErrorTitle::InvalidType => "invalid type"@,
            ErrorTitle::DuplicateField => "duplicate field"@,
            ErrorTitle::DuplicateArg => "duplicate argument"@,
            ErrorTitle::VariableValueAndHintDiffer => "variable type & hint differ in types"@,
            ErrorTitle::VariableValueNotTuple => "variable value is not a tuple"@,
            ErrorTitle::VariableNotFound => "variable not found"@,
            ErrorTitle::IfMissingElse => "if is missing an else case"@,
            ErrorTitle::IfBodyAndElseMismatch => "if branches differ in types"@,
            ErrorTitle::MatchValueIsntEnum => "match value isn't an enum"@,
            ErrorTitle::MatchBranchesDifferInReturnType => "match branches differ in return types"@,
            ErrorTitle::DuplicateMatch => "duplicate match variant"@,
            ErrorTitle::InvalidMatch => "invalid match variant"@,
            ErrorTitle::ValueIsntAnIterator => "expression isn't an iterator"@,
            ErrorTitle::StructCreationOnNonStruct => "struct creation on a type which is not a struct"@,
            ErrorTitle::FieldAccessOnNonEnumOrStruct => "can't access fields on this type"@,
            ErrorTitle::FieldDoesntExist => "field doesn't exist"@,
            ErrorTitle::FunctionNotFound => "function not found"@,
            ErrorTitle::BindedFunctionNotFound => "associated function not found"@,
            ErrorTitle::FunctionArgsMismatch => "function argument count mismatch"@,
            ErrorTitle::NamespaceNotFound => "namespace not found"@,
            ErrorTitle::ValueUpdateTypeMismatch => "can't update a value with a different type"@,
            ErrorTitle::ContinueOutsideOfLoop => "continue outside of loop"@,
            ErrorTitle::BreakOutsideOfLoop => "break outside of loop"@,
            ErrorTitle::CantUnwrapOnGivenType => "can't unwrap on given type"@,
            ErrorTitle::CantTryOnGivenType => "can't try on given type"@,
            ErrorTitle::FunctionDoesntReturnAnOption => "function doesn't return an option"@,
            ErrorTitle::FunctionDoesntReturnAResult => "function doesn't return a result "@,
            ErrorTitle::FunctionReturnsAResultButTheErrIsntTheSame => "result error types differ"@,
            ErrorTitle::ReturnAndFuncTypDiffer => "return and function return type differ"@,
            ErrorTitle::AssignIsNotLHSValue => "this is not a valid lhs expression"@,
            ErrorTitle::UnableToInfer => "unable to infer type"@,
            ErrorTitle::InvalidRange => "invalid range bound"@,
            ErrorTitle::ImplOnGeneric => "can't impl on a generic"@,
            ErrorTitle::GenericLenMismatch => "generic length mismatch"@,
            ErrorTitle::CantUseHoleHere => "can't use the hole ('_') here"@,
            ErrorTitle::NameIsReservedForFunctions => "this name is reserved for an overwritable function"@,
            ErrorTitle::InvalidSystem => "system functions must be outside of an impl block & not have any generics"@,
            ErrorTitle::IndexOnNonList => "indexing on non-list value"@,
            ErrorTitle::CallOnNonFunction => "call on non-function"@,
        }
    }
}

} // verus!
