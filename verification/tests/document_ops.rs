use tamawiki::document::{
    Delete, Document, DocumentParticipant, Edit, EditError, Event, Insert, Join, Leave, Operation, Participants,
};

fn operation_test(initial: &'static str, op: Operation, expected: &'static str) {
    let mut doc = Document::from(initial);
    
    doc.apply(&Event::Join(Join {id: 1})).unwrap();
    doc.apply(&Event::Edit(Edit {
        author: 1,
        operations: vec![op]
    })).unwrap();
    
    assert_eq!(doc.content, expected);
}

#[test]
fn apply_insert_operation_in_middle() {
    operation_test(
        "Hello, !",
        Operation::Insert(Insert {
            pos: 7,
            content: String::from("world"),
        }),
        "Hello, world!"
    );
}

#[test]
fn apply_insert_operation_at_start() {
    operation_test(
        "Foo Bar",
        Operation::Insert(Insert {
            pos: 0,
            content: String::from("Baz "),
        }),
        "Baz Foo Bar"
    )
}

#[test]
fn apply_insert_operation_at_end() {
    let s = "Foo Bar";
    let len = s.chars().count();
    operation_test(
        s,
        Operation::Insert(Insert {
            pos: len,
            content: String::from(" Baz"),
        }),
        "Foo Bar Baz"
    );
}

#[test]
fn apply_insert_middle_with_multibyte_chars_in_doc() {
    operation_test(
        "Здравствуйте",
        Operation::Insert(Insert {
            pos: 6,
            content: String::from("-"),
        }),
        "Здравс-твуйте"
    );
}

#[test]
fn apply_insert_at_end_with_multibyte_chars_in_doc() {
    operation_test(
        "Здравс",
        Operation::Insert(Insert {
            pos: 6,
            content: String::from("..."),
        }),
        "Здравс..."
    );
}

#[test]
fn apply_insert_multibyte_char_into_doc() {
    operation_test(
        "Hello / !",
        Operation::Insert(Insert {
            pos: 8,
            content: String::from("Здравствуйте"),
        }),
        "Hello / Здравствуйте!"
    );
}

#[test]
fn apply_delete_operation_in_middle() {
    operation_test(
        "Hello, world!",
        Operation::Delete(Delete {
            start: 7,
            end: 12,
        }),
        "Hello, !"
    );
}

#[test]
fn apply_delete_operation_at_start() {
    operation_test(
        "Foo Bar Baz",
        Operation::Delete(Delete {
            start: 0,
            end: 4,
        }),
        "Bar Baz"
    );
}

#[test]
fn apply_delete_operation_at_end() {
    operation_test(
        "Foo Bar Baz",
        Operation::Delete(Delete {
            start: 7,
            end: 11,
        }),
        "Foo Bar"
    );
}

#[test]
fn apply_empty_delete_operation_at_very_end() {
    operation_test(
        "Foo",
        Operation::Delete(Delete {
            start: 3,
            end: 3,
        }),
        "Foo"
    );
}

#[test]
fn apply_delete_with_multibyte_chars() {
    operation_test(
        "Здравствуйте test",
        Operation::Delete(Delete {
            start: 6,
            end: 12,
        }),
        "Здравс test"
    );
}

#[test]
fn apply_delete_to_end_with_multibyte_chars() {
    operation_test(
        "Здравствуйте",
        Operation::Delete(Delete {
            start: 6,
            end: 12,
        }),
        "Здравс"
    );
}

#[test]
fn edit_from_missing_participant() {
    let mut doc = Document::from("");
    assert_eq!(
        doc.apply(&Event::Edit(Edit {
            author: 1,
            operations: vec![
                Operation::Insert(Insert {
                    pos: 0,
                    content: String::from("test"),
                })
            ],
        })),
        Err(EditError::InvalidOperation)
    );
    // document should remain unchanged
    assert_eq!(doc, Document::from(""));
}

#[test]
fn delete_outside_of_bounds() {
    let mut doc = Document::from("foobar");
    doc.apply(&Event::Join(Join {id: 1})).unwrap();
    
    assert_eq!(
        doc.apply(&Event::Edit(Edit {
            author: 1,
            operations: vec![
                Operation::Delete(Delete {
                    start: 3,
                    end: 7,
                })
            ],
        })),
        Err(EditError::OutsideDocument)
    );
    
    // document should remain unchanged
    assert_eq!(doc, Document {
        content: String::from("foobar"),
        participants: Participants::from_entries(vec![
            (1, DocumentParticipant {cursor_pos: 0}),
        ])
    });
    
    assert_eq!(
        doc.apply(&Event::Edit(Edit {
            author: 1,
            operations: vec![
                Operation::Delete(Delete {
                    start: 7,
                    end: 10,
                })
            ],
        })),
        Err(EditError::OutsideDocument)
    );
    
    // document should remain unchanged
    assert_eq!(doc, Document {
        content: String::from("foobar"),
        participants: Participants::from_entries(vec![
            (1, DocumentParticipant {cursor_pos: 0}),
        ])
    });
}

#[test]
fn insert_outside_of_bounds() {
    let mut doc = Document::from("foobar");
    doc.apply(&Event::Join(Join {id: 1})).unwrap();
    
    assert_eq!(
        doc.apply(&Event::Edit(Edit {
            author: 1,
            operations: vec![
                Operation::Insert(Insert {
                    pos: 8,
                    content: String::from("test")
                })
            ],
        })),
        Err(EditError::OutsideDocument)
    );
    
    // document should be unchanged
    assert_eq!(doc, Document {
        content: String::from("foobar"),
        participants: Participants::from_entries(vec![
            (1, DocumentParticipant {cursor_pos: 0}),
        ])
    });
}

#[test]
fn apply_multiple_operations_in_single_edit() {
    let mut doc = Document::from("Hello");
    doc.apply(&Event::Join(Join {id: 1})).unwrap();
    
    doc.apply(&Event::Edit(Edit {
        author: 1,
        operations: vec![
            Operation::Insert(Insert {
                pos: 5,
                content: String::from(", ")
            }),
            Operation::Insert(Insert {
                pos: 7,
                content: String::from("world!!")
            }),
            Operation::Delete(Delete {
                start: 13,
                end: 14,
            })
        ],
    })).unwrap();
    
    assert_eq!(doc, Document {
        content: String::from("Hello, world!"),
        participants: Participants::from_entries(vec![
            (1, DocumentParticipant {cursor_pos: 13}),
        ])
    });
}

#[test]
fn apply_edit_with_single_failing_operation() {
    let mut doc = Document::from("a");
    doc.apply(&Event::Join(Join {id: 1})).unwrap();
    
    assert_eq!(
        doc.apply(&Event::Edit(Edit {
            author: 1,
            operations: vec![
                Operation::Insert(Insert {
                    pos: 0,
                    content: String::from("b")
                }),
                Operation::Insert(Insert {
                    pos: 0,
                    content: String::from("c")
                }),
                Operation::Delete(Delete {
                    start: 20,
                    end: 25,
                })
            ],
        })),
        Err(EditError::OutsideDocument)
    );
    
    // document should remain unchanged
    assert_eq!(doc, Document {
        content: String::from("a"),
        participants: Participants::from_entries(vec![
            (1, DocumentParticipant {cursor_pos: 0}),
        ])
    });
}

#[test]
fn apply_previous_operation_makes_later_operation_valid() {
    let mut doc = Document::from("Hello");
    doc.apply(&Event::Join(Join {id: 1})).unwrap();
    
    doc.apply(&Event::Edit(Edit {
        author: 1,
        operations: vec![
            Operation::Insert(Insert {
                pos: 5,
                content: String::from(", world!")
            }),
            Operation::Delete(Delete {
                start: 7,
                end: 12,
            }),
            Operation::Insert(Insert {
                pos: 7,
                content: String::from("galaxy")
            }),
        ],
    })).unwrap();
    
    assert_eq!(doc, Document {
        content: String::from("Hello, galaxy!"),
        participants: Participants::from_entries(vec![
            (1, DocumentParticipant {cursor_pos: 13}),
        ])
    });
}

#[test]
fn apply_previous_operation_makes_later_operation_invalid() {
    let mut doc = Document::from("Hello");
    doc.apply(&Event::Join(Join {id: 1})).unwrap();
    
    assert_eq!(
        doc.apply(&Event::Edit(Edit {
            author: 1,
            operations: vec![
                Operation::Delete(Delete {
                    start: 0,
                    end: 5,
                }),
                Operation::Insert(Insert {
                    pos: 5,
                    content: String::from(", world!")
                })
            ],
        })),
        Err(EditError::OutsideDocument)
    );
    
    // document should remain unchanged
    assert_eq!(doc, Document {
        content: String::from("Hello"),
        participants: Participants::from_entries(vec![
            (1, DocumentParticipant {cursor_pos: 0}),
        ])
    });
}

#[test]
fn apply_insert_which_moves_another_participants_cursor() {
    let mut doc = Document::from("");
    doc.apply(&Event::Join(Join {id: 1})).unwrap();
    doc.apply(&Event::Join(Join {id: 2})).unwrap();
    
    doc.apply(&Event::Edit(Edit {
        author: 1,
        operations: vec![
            Operation::Insert(Insert {
                pos: 0,
                content: String::from(", world!")
            })
        ],
    })).unwrap();

    assert_eq!(doc.participants, Participants::from_entries(vec![
        (1, DocumentParticipant {cursor_pos: 8}),
        (2, DocumentParticipant {cursor_pos: 0}),
    ]));
    
    doc.apply(&Event::Edit(Edit {
        author: 2,
        operations: vec![
            Operation::Insert(Insert {
                pos: 0,
                content: String::from("Hello")
            })
        ],
    })).unwrap();
    
    assert_eq!(doc.participants, Participants::from_entries(vec![
        (1, DocumentParticipant {cursor_pos: 13}),
        (2, DocumentParticipant {cursor_pos: 5}),
    ]));
}

#[test]
fn apply_insert_without_priority_at_other_participants_cursor_position() {
    let mut doc = Document::from("");
    doc.apply(&Event::Join(Join {id: 1})).unwrap();
    doc.apply(&Event::Join(Join {id: 2})).unwrap();
    
    doc.apply(&Event::Edit(Edit {
        author: 1,
        operations: vec![
            Operation::Insert(Insert {
                pos: 0,
                content: String::from("test")
            })
        ],
    })).unwrap();

    assert_eq!(doc.participants, Participants::from_entries(vec![
        (1, DocumentParticipant {cursor_pos: 4}),
        (2, DocumentParticipant {cursor_pos: 0}),
    ]));
}

#[test]
fn apply_delete_which_moves_another_participants_cursor() {
    let mut doc = Document::from("");
    doc.apply(&Event::Join(Join {id: 1})).unwrap();
    doc.apply(&Event::Join(Join {id: 2})).unwrap();
    
    doc.apply(&Event::Edit(Edit {
        author: 1,
        operations: vec![
            Operation::Insert(Insert {
                pos: 0,
                content: String::from("test")
            })
        ],
    })).unwrap();

    assert_eq!(doc.participants, Participants::from_entries(vec![
        (1, DocumentParticipant {cursor_pos: 4}),
        (2, DocumentParticipant {cursor_pos: 0}),
    ]));
    
    doc.apply(&Event::Edit(Edit {
        author: 2,
        operations: vec![
            Operation::Delete(Delete {
                start: 0,
                end: 2,
            })
        ],
    })).unwrap();
    
    assert_eq!(doc.participants, Participants::from_entries(vec![
        (1, DocumentParticipant {cursor_pos: 2}),
        (2, DocumentParticipant {cursor_pos: 0}),
    ]));
}

#[test]
fn apply_delete_which_partially_moves_another_participants_cursor() {
    let mut doc = Document::from("foo");
    doc.apply(&Event::Join(Join {id: 1})).unwrap();
    doc.apply(&Event::Join(Join {id: 2})).unwrap();
    
    doc.apply(&Event::Edit(Edit {
        author: 1,
        operations: vec![
            Operation::Insert(Insert {
                pos: 3,
                content: String::from("bar")
            })
        ],
    })).unwrap();

    assert_eq!(doc.participants, Participants::from_entries(vec![
        (1, DocumentParticipant {cursor_pos: 6}),
        (2, DocumentParticipant {cursor_pos: 0}),
    ]));
    
    doc.apply(&Event::Edit(Edit {
        author: 2,
        operations: vec![
            Operation::Delete(Delete {
                start: 2,
                end: 4,
            })
        ],
    })).unwrap();

    assert_eq!(doc.participants, Participants::from_entries(vec![
        (1, DocumentParticipant {cursor_pos: 4}),
        (2, DocumentParticipant {cursor_pos: 2}),
    ]));
}

#[test]
fn apply_operations_that_have_no_effect_on_content() {
    // these should be permitted as they can still affect
    // participant state (e.g. cursor position)
    
    let mut doc = Document::from("Hello");
    doc.apply(&Event::Join(Join {id: 1})).unwrap();
    
    doc.apply(&Event::Edit(Edit {
        author: 1,
        operations: vec![
            Operation::Delete(Delete {
                start: 2,
                end: 2,
            })
        ],
    })).unwrap();

    // content should be unchanged, but cursor position updated
    assert_eq!(doc, Document {
        content: String::from("Hello"),
        participants: Participants::from_entries(vec![
            (1, DocumentParticipant {cursor_pos: 2}),
        ])
    });
            
    doc.apply(&Event::Edit(Edit {
        author: 1,
        operations: vec![
            Operation::Insert(Insert {
                pos: 4,
                content: String::new()
            })
        ],
    })).unwrap();

    // content should be unchanged, but cursor position updated
    assert_eq!(doc, Document {
        content: String::from("Hello"),
        participants: Participants::from_entries(vec![
            (1, DocumentParticipant {cursor_pos: 4}),
        ])
    });
}

#[test]
fn apply_join_leave_events() {
    let mut doc = Document {
        content: String::from("foobar"),
        participants: Participants::new(),
    };
    assert_eq!(
        doc.apply(&Event::Join(Join {id: 1})),
        Ok(())
    );
    assert_eq!(doc, Document {
        content: String::from("foobar"),
        participants: Participants::from_entries(vec![
            (1, DocumentParticipant {cursor_pos: 0}),
        ]),
    });
    assert_eq!(
        doc.apply(&Event::Join(Join {id: 2})),
        Ok(())
    );
    assert_eq!(doc, Document {
        content: String::from("foobar"),
        participants: Participants::from_entries(vec![
            (1, DocumentParticipant {cursor_pos: 0}),
            (2, DocumentParticipant {cursor_pos: 0}),
        ]),
    });
    assert_eq!(
        doc.apply(&Event::Leave(Leave {id: 1})),
        Ok(())
    );
    assert_eq!(doc, Document {
        content: String::from("foobar"),
        participants: Participants::from_entries(vec![
            (2, DocumentParticipant {cursor_pos: 0}),
        ]),
    });
}

#[test]
fn can_apply() {
    let mut doc = Document::from("Hello");
    doc.apply(&Event::Join(Join {id: 1})).unwrap();
    
    assert_eq!(
        doc.can_apply(&Event::Edit(Edit {
            author: 1,
            operations: vec![
                Operation::Insert (Insert {
                    pos: 0,
                    content: String::from("test")
                })
            ]
        })),
        Ok(())
    );
    assert_eq!(
        doc.can_apply(&Event::Edit(Edit {
            author: 1,
            operations: vec![
                Operation::Insert (Insert {
                    pos: 100,
                    content: String::from("test")
                })
            ]
        })),
        Err(EditError::OutsideDocument)
    );
    assert_eq!(
        doc.can_apply(&Event::Edit(Edit {
            author: 1,
            operations: vec![
                Operation::Delete (Delete {
                    start: 0,
                    end: 2,
                })
            ]
        })),
        Ok(())
    );
    assert_eq!(
        doc.can_apply(&Event::Edit(Edit {
            author: 1,
            operations: vec![
                Operation::Delete (Delete {
                    start: 100,
                    end: 102,
                })
            ]
        })),
        Err(EditError::OutsideDocument)
    );
    assert_eq!(
        doc.can_apply(&Event::Edit(Edit {
            author: 1,
            operations: vec![
                Operation::Delete (Delete {
                    start: 0,
                    end: 6,
                })
            ]
        })),
        Err(EditError::OutsideDocument)
    );
    assert_eq!(
        doc.can_apply(&Event::Edit(Edit {
            author: 1,
            operations: vec![
                Operation::Delete (Delete {
                    start: 2,
                    end: 1,
                })
            ]
        })),
        Err(EditError::InvalidOperation)
    );
    // joining participant id already exists in document
    assert_eq!(
        doc.can_apply(&Event::Join(Join {id: 1})),
        Err(EditError::InvalidOperation)
    );
    // leaving participant id does not exist in document
    assert_eq!(
        doc.can_apply(&Event::Leave(Leave {id: 2})),
        Err(EditError::InvalidOperation)
    );
}

#[test]
fn operation_is_valid() {
    assert!(Operation::Insert (Insert {
        pos: 0,
        content: String::from("test"),
    }).is_valid());
    
    assert!(Operation::Insert (Insert {
        pos: 0,
        content: String::from(""),
    }).is_valid());
    
    assert!(Operation::Delete (Delete {
        start: 0,
        end: 10,
    }).is_valid());
    
    assert!(Operation::Delete (Delete {
        start: 0,
        end: 0,
    }).is_valid());
    
    assert!(!Operation::Delete (Delete {
        start: 10,
        end: 0,
    }).is_valid());
}

#[test]
fn transform_insert_before_insert() {
    let mut h = Edit {
        author: 1,
        operations: vec![Operation::Insert(Insert {
            pos: 0,
            content: String::from("Test")
        })]
    };
    h.transform(&Edit {
        author: 2,
        operations: vec![Operation::Insert(Insert {
            pos: 10,
            content: String::from("foo")
        })]
    });
    assert_eq!(h.operations, vec![Operation::Insert(Insert {
        pos: 0,
        content: String::from("Test")
    })]);
}

#[test]
fn transform_insert_after_insert() {
    let mut msg = Edit {
        author: 1,
        operations: vec![Operation::Insert(Insert {
            pos: 10,
            content: String::from("Test")
        })]
    };
    msg.transform(&Edit {
        author: 2,
        operations: vec![Operation::Insert(Insert {
            pos: 2,
            content: String::from("foo")
        })]
    });
    assert_eq!(msg.operations, vec![Operation::Insert(Insert {
        pos: 13,
        content: String::from("Test")
    })]);
}

#[test]
fn transform_inserts_at_same_point_checks_priority() {
    let mut msg = Edit {
        author: 1,
        operations: vec![Operation::Insert(Insert {
            pos: 5,
            content: String::from("Test")
        })]
    };
    msg.transform(&Edit {
        author: 2,
        operations: vec![Operation::Insert(Insert {
            pos: 5,
            content: String::from("foo")
        })]
    });
    assert_eq!(msg.operations, vec![Operation::Insert(Insert {
        pos: 8,
        content: String::from("Test")
    })]);
    
    let mut msg = Edit {
        author: 2,
        operations: vec![Operation::Insert(Insert {
            pos: 5,
            content: String::from("Test")
        })]
    };
    msg.transform(&Edit {
        author: 1,
        operations: vec![Operation::Insert(Insert {
            pos: 5,
            content: String::from("foo")
        })]
    });
    assert_eq!(msg.operations, vec![Operation::Insert(Insert {
        pos: 5,
        content: String::from("Test")
    })]);
}

#[test]
fn transform_insert_uses_char_index_not_byte_index() {
    let mut msg = Edit {
        author: 1,
        operations: vec![Operation::Insert(Insert {
            pos: 5,
            content: String::from("Test")
        })]
    };
    msg.transform(&Edit {
        author: 2,
        operations: vec![Operation::Insert(Insert {
            pos: 0,
            // 2-byte unicode scalar value
            content: String::from("д")
        })]
    });
    assert_eq!(msg.operations, vec![Operation::Insert(Insert {
        // 6 is char index, 7 would be byte index
        pos: 6,
        content: String::from("Test")
    })]);
}

#[test]
fn transform_delete_delete_non_overlapping_after() {
    let mut msg = Edit {
        author: 1,
        operations: vec![Operation::Delete(Delete {
            start: 0,
            end: 5,
        })]
    };
    msg.transform(&Edit {
        author: 2,
        operations: vec![Operation::Delete(Delete {
            start: 10,
            end: 15,
        })]
    });
    assert_eq!(msg.operations, vec![Operation::Delete(Delete {
        start: 0,
        end: 5,
    })]);
}

#[test]
fn transform_delete_delete_non_overlapping_before() {
    let mut msg = Edit {
        author: 1,
        operations: vec![Operation::Delete(Delete {
            start: 5,
            end: 10,
        })]
    };
    msg.transform(&Edit {
        author: 2,
        operations: vec![Operation::Delete(Delete {
            start: 0,
            end: 1,
        })]
    });
    assert_eq!(msg.operations, vec![Operation::Delete(Delete {
        start: 4,
        end: 9,
    })]);
}

#[test]
fn transform_delete_delete_adjacent_before() {
    let mut msg = Edit {
        author: 1,
        operations: vec![Operation::Delete(Delete {
            start: 2,
            end: 4,
        })]
    };
    msg.transform(&Edit {
        author: 2,
        operations: vec![Operation::Delete(Delete {
            start: 0,
            end: 2,
        })]
    });
    assert_eq!(msg.operations, vec![Operation::Delete(Delete {
        start: 0,
        end: 2,
    })]);
}

#[test]
fn transform_delete_delete_adjacent_after() {
    let mut msg = Edit {
        author: 1,
        operations: vec![Operation::Delete(Delete {
            start: 0,
            end: 3,
        })]
    };
    msg.transform(&Edit {
        author: 2,
        operations: vec![Operation::Delete(Delete {
            start: 3,
            end: 5,
        })]
    });
    assert_eq!(msg.operations, vec![Operation::Delete(Delete {
        start: 0,
        end: 3,
    })]);
}

#[test]
fn transform_delete_delete_overlapping_start() {
    let mut msg = Edit {
        author: 1,
        operations: vec![Operation::Delete(Delete {
            start: 5,
            end: 15,
        })]
    };
    msg.transform(&Edit {
        author: 2,
        operations: vec![Operation::Delete(Delete {
            start: 0,
            end: 10,
        })]
    });
    assert_eq!(msg.operations, vec![Operation::Delete(Delete {
        start: 0,
        end: 5,
    })]);
}

#[test]
fn transform_delete_delete_overlapping_end() {
    let mut msg = Edit {
        author: 1,
        operations: vec![Operation::Delete(Delete {
            start: 0,
            end: 4,
        })]
    };
    msg.transform(&Edit {
        author: 2,
        operations: vec![Operation::Delete(Delete {
            start: 2,
            end: 6,
        })]
    });
    assert_eq!(msg.operations, vec![Operation::Delete(Delete {
        start: 0,
        end: 2,
    })]);
}

#[test]
fn transform_delete_delete_subset() {
    let mut msg = Edit {
        author: 1,
        operations: vec![Operation::Delete(Delete {
            start: 5,
            end: 10,
        })]
    };
    msg.transform(&Edit {
        author: 2,
        operations: vec![Operation::Delete(Delete {
            start: 1,
            end: 20,
        })]
    });
    // keep the delete operation even though it will have no
    // effect on the content, since it will still set the cursor
    // position for it's author
    assert_eq!(msg.operations, vec![
        Operation::Delete(Delete {
            start: 1,
            end: 1,
        })
    ]);
}

#[test]
fn transform_delete_delete_superset() {
    let mut msg = Edit {
        author: 1,
        operations: vec![Operation::Delete(Delete {
            start: 0,
            end: 17,
        })]
    };
    msg.transform(&Edit {
        author: 2,
        operations: vec![Operation::Delete(Delete {
            start: 5,
            end: 10,
        })]
    });
    assert_eq!(msg.operations, vec![Operation::Delete(Delete {
        start: 0,
        end: 12,
    })]);
}

#[test]
fn transform_delete_delete_same_range() {
    let mut msg = Edit {
        author: 1,
        operations: vec![Operation::Delete(Delete {
            start: 0,
            end: 1,
        })]
    };
    msg.transform(&Edit {
        author: 2,
        operations: vec![Operation::Delete(Delete {
            start: 0,
            end: 1,
        })]
    });
    // keep delete which has no effect since it will still set the
    // appropriate cursor position for the author
    assert_eq!(msg.operations, vec![Operation::Delete(Delete {
        start: 0,
        end: 0,
    })]);
}

#[test]
fn transform_insert_delete_non_overlapping_after() {
    let mut msg = Edit {
        author: 1,
        operations: vec![Operation::Insert(Insert {
            pos: 0,
            content: String::from("12345")
        })]
    };
    msg.transform(&Edit {
        author: 2,
        operations: vec![Operation::Delete(Delete {
            start: 10,
            end: 15,
        })]
    });
    assert_eq!(msg.operations, vec![Operation::Insert(Insert {
        pos: 0,
        content: String::from("12345")
    })]);
}

#[test]
fn transform_insert_delete_non_overlapping_before() {
    let mut msg = Edit {
        author: 1,
        operations: vec![Operation::Insert(Insert {
            pos: 5,
            content: String::from("foo")
        })]
    };
    msg.transform(&Edit {
        author: 2,
        operations: vec![Operation::Delete(Delete {
            start: 0,
            end: 1,
        })]
    });
    assert_eq!(msg.operations, vec![Operation::Insert(Insert {
        pos: 4,
        content: String::from("foo")
    })]);
}

#[test]
fn transform_insert_delete_adjacent_before() {
    let mut msg = Edit {
        author: 1,
        operations: vec![Operation::Insert(Insert {
            pos: 2,
            content: String::from("ab")
        })]
    };
    msg.transform(&Edit {
        author: 2,
        operations: vec![Operation::Delete(Delete {
            start: 0,
            end: 2,
        })]
    });
    assert_eq!(msg.operations, vec![Operation::Insert(Insert {
        pos: 0,
        content: String::from("ab")
    })]);
}

#[test]
fn transform_insert_delete_adjacent_after() {
    let mut msg = Edit {
        author: 1,
        operations: vec![Operation::Insert(Insert {
            pos: 0,
            content: String::from("foo")
        })]
    };
    msg.transform(&Edit {
        author: 2,
        operations: vec![Operation::Delete(Delete {
            start: 3,
            end: 5,
        })]
    });
    assert_eq!(msg.operations, vec![Operation::Insert(Insert {
        pos: 0,
        content: String::from("foo")
    })]);
}

#[test]
fn transform_insert_delete_overlapping_start() {
    let mut msg = Edit {
        author: 1,
        operations: vec![Operation::Insert(Insert {
            pos: 5,
            content: String::from("1234567890")
        })]
    };
    msg.transform(&Edit {
        author: 2,
        operations: vec![Operation::Delete(Delete {
            start: 0,
            end: 10,
        })]
    });
    assert_eq!(msg.operations, vec![Operation::Insert(Insert {
        pos: 0,
        content: String::from("1234567890")
    })]);
}

#[test]
fn transform_insert_delete_overlapping_end() {
    let mut msg = Edit {
        author: 1,
        operations: vec![Operation::Insert(Insert {
            pos: 0,
            content: String::from("abcd")
        })]
    };
    msg.transform(&Edit {
        author: 2,
        operations: vec![Operation::Delete(Delete {
            start: 2,
            end: 6,
        })]
    });
    assert_eq!(msg.operations, vec![Operation::Insert(Insert {
        pos: 0,
        content: String::from("abcd")
    })]);
}

#[test]
fn transform_insert_delete_subset() {
    let mut msg = Edit {
        author: 1,
        operations: vec![Operation::Insert(Insert {
            pos: 5,
            content: String::from("12345")
        })]
    };
    msg.transform(&Edit {
        author: 2,
        operations: vec![Operation::Delete(Delete {
            start: 1,
            end: 20,
        })]
    });
    assert_eq!(msg.operations, vec![Operation::Insert(Insert {
        pos: 1,
        content: String::from("12345")
    })]);
}

#[test]
fn transform_insert_delete_superset() {
    let mut msg = Edit {
        author: 1,
        operations: vec![Operation::Insert(Insert {
            pos: 0,
            content: String::from("12345678901234567")
        })]
    };
    msg.transform(&Edit {
        author: 2,
        operations: vec![Operation::Delete(Delete {
            start: 5,
            end: 10,
        })]
    });
    assert_eq!(msg.operations, vec![Operation::Insert(Insert {
        pos: 0,
        content: String::from("12345678901234567")
    })]);
}

#[test]
fn transform_delete_insert_non_overlapping_after() {
    let mut msg = Edit {
        author: 1,
        operations: vec![Operation::Delete(Delete {
            start: 0,
            end: 5,
        })]
    };
    msg.transform(&Edit {
        author: 2,
        operations: vec![Operation::Insert(Insert {
            pos: 10,
            content: String::from("12345")
        })]
    });
    assert_eq!(msg.operations, vec![Operation::Delete(Delete {
        start: 0,
        end: 5,
    })]);
}

#[test]
fn transform_delete_insert_non_overlapping_before() {
    let mut msg = Edit {
        author: 1,
        operations: vec![Operation::Delete(Delete {
            start: 5,
            end: 8,
        })]
    };
    msg.transform(&Edit {
        author: 2,
        operations: vec![Operation::Insert(Insert {
            pos: 0,
            content: String::from("a")
        })]
    });
    assert_eq!(msg.operations, vec![Operation::Delete(Delete {
        start: 6,
        end: 9,
    })]);
}

#[test]
fn transform_delete_insert_adjacent_before() {
    let mut msg = Edit {
        author: 1,
        operations: vec![Operation::Delete(Delete {
            start: 2,
            end: 4,
        })]
    };
    msg.transform(&Edit {
        author: 2,
        operations: vec![Operation::Insert(Insert {
            pos: 0,
            content: String::from("ab")
        })]
    });
    assert_eq!(msg.operations, vec![Operation::Delete(Delete {
        start: 4,
        end: 6,
    })]);
}

#[test]
fn transform_delete_insert_adjacent_after() {
    let mut msg = Edit {
        author: 1,
        operations: vec![Operation::Delete(Delete {
            start: 0,
            end: 3,
        })]
    };
    msg.transform(&Edit {
        author: 2,
        operations: vec![Operation::Insert(Insert {
            pos: 3,
            content: String::from("ab")
        })]
    });
    assert_eq!(msg.operations, vec![Operation::Delete(Delete {
        start: 0,
        end: 3,
    })]);
}

#[test]
fn transform_delete_insert_overlapping_start() {
    let mut msg = Edit {
        author: 1,
        operations: vec![Operation::Delete(Delete {
            start: 5,
            end: 15,
        })]
    };
    msg.transform(&Edit {
        author: 2,
        operations: vec![Operation::Insert(Insert {
            pos: 0,
            content: String::from("1234567890")
        })]
    });
    assert_eq!(msg.operations, vec![Operation::Delete(Delete {
        start: 15,
        end: 25,
    })]);
}

#[test]
fn transform_delete_insert_subset() {
    let mut msg = Edit {
        author: 1,
        operations: vec![Operation::Delete(Delete {
            start: 5,
            end: 10,
        })]
    };
    msg.transform(&Edit {
        author: 2,
        operations: vec![Operation::Insert(Insert {
            pos: 1,
            content: String::from("12345678901234567890")
        })]
    });
    assert_eq!(msg.operations, vec![Operation::Delete(Delete {
        start: 25,
        end: 30,
    })]);
}

#[test]
fn document_concurrent_delete_and_insert() {
    let mut doc = Document::from("ab");
    doc.apply(&Event::Join(Join {id: 1})).unwrap();
    doc.apply(&Event::Join(Join {id: 2})).unwrap();

    let op1 = Operation::Delete(Delete {
        start: 0,
        end: 1,
    });
    let op2 = Operation::Insert(Insert {
        pos: 1,
        content: String::from("c")
    });
    
    let mut a1 = Event::Edit(Edit {
        author: 1,
        operations: vec![op1.clone()]
    });
    let b1 = Event::Edit(Edit {
        author: 2,
        operations: vec![op2.clone()]
    });
    let a2 = a1.clone();
    let mut b2 = b1.clone();
    let mut doc1 = doc.clone();
    let mut doc2 = doc.clone();
    a1.transform(&b1);
    b2.transform(&a2);

    assert_eq!(a2, Event::Edit(Edit {
        author: 1,
        operations: vec![Operation::Delete(Delete {
            start: 0,
            end: 1,
        })]
    }));
    assert_eq!(b2, Event::Edit(Edit {
        author: 2,
        operations: vec![Operation::Insert(Insert {
            pos: 0,
            content: String::from("c")
        })]
    }));

    // doc1
    
    assert_eq!(doc1.participants, Participants::from_entries(vec![
        (1, DocumentParticipant {cursor_pos: 0}),
        (2, DocumentParticipant {cursor_pos: 0}),
    ]));
    
    doc1.apply(&b1).unwrap();
    assert_eq!(doc1.participants, Participants::from_entries(vec![
        (1, DocumentParticipant {cursor_pos: 0}),
        (2, DocumentParticipant {cursor_pos: 2}),
    ]));
    
    doc1.apply(&a1).unwrap();
    assert_eq!(doc1.participants, Participants::from_entries(vec![
        (1, DocumentParticipant {cursor_pos: 0}),
        (2, DocumentParticipant {cursor_pos: 1}),
    ]));

    // doc2
    
    assert_eq!(doc2.participants, Participants::from_entries(vec![
        (1, DocumentParticipant {cursor_pos: 0}),
        (2, DocumentParticipant {cursor_pos: 0}),
    ]));
            
    doc2.apply(&a2).unwrap();
    assert_eq!(doc2.participants, Participants::from_entries(vec![
        (1, DocumentParticipant {cursor_pos: 0}),
        (2, DocumentParticipant {cursor_pos: 0}),
    ]));
    
    doc2.apply(&b2).unwrap();
    assert_eq!(doc2.participants, Participants::from_entries(vec![
        (1, DocumentParticipant {cursor_pos: 0}),
        (2, DocumentParticipant {cursor_pos: 1}),
    ]));
    
    // check the results converge
    assert_eq!(doc1, doc2);
}

#[test]
fn document_concurrent_delete_and_insert_2() {
    let mut doc = Document::from("a");
    doc.apply(&Event::Join(Join {id: 1})).unwrap();
    doc.apply(&Event::Join(Join {id: 2})).unwrap();

    let op1 = Operation::Delete(Delete {
        start: 0,
        end: 1,
    });
    let op2 = Operation::Insert(Insert {
        pos: 0,
        content: String::from("b")
    });
    
    let mut a1 = Event::Edit(Edit {
        author: 1,
        operations: vec![op1.clone()]
    });
    let b1 = Event::Edit(Edit {
        author: 2,
        operations: vec![op2.clone()]
    });
    let a2 = a1.clone();
    let mut b2 = b1.clone();
    let mut doc1 = doc.clone();
    let mut doc2 = doc.clone();
    a1.transform(&b1);
    b2.transform(&a2);

    // assert_eq!(a2, Event::Edit(Edit {
    //     author: 1,
    //     operations: vec![Operation::Delete(Delete {
    //         start: 1,
    //         end: 2
    //     })]
    // }));
    // assert_eq!(b2, Event::Edit(Edit {
    //     author: 2,
    //     operations: vec![Operation::Insert(Insert {
    //         pos: 0,
    //         content: String::from("c")
    //     })]
    // }));

    // doc1 (insert then delete)
    
    assert_eq!(doc1.participants, Participants::from_entries(vec![
        (1, DocumentParticipant {cursor_pos: 0}),
        (2, DocumentParticipant {cursor_pos: 0}),
    ]));
    
    doc1.apply(&b1).unwrap();
    assert_eq!(doc1.participants, Participants::from_entries(vec![
        (1, DocumentParticipant {cursor_pos: 0}),
        (2, DocumentParticipant {cursor_pos: 1}),
    ]));
    
    doc1.apply(&a1).unwrap();
    assert_eq!(doc1.participants, Participants::from_entries(vec![
        (1, DocumentParticipant {cursor_pos: 0}),
        (2, DocumentParticipant {cursor_pos: 1}),
    ]));

    // doc2 (delete then insert)
    
    assert_eq!(doc2.participants, Participants::from_entries(vec![
        (1, DocumentParticipant {cursor_pos: 0}),
        (2, DocumentParticipant {cursor_pos: 0}),
    ]));
            
    doc2.apply(&a2).unwrap();
    assert_eq!(doc2.participants, Participants::from_entries(vec![
        (1, DocumentParticipant {cursor_pos: 0}),
        (2, DocumentParticipant {cursor_pos: 0}),
    ]));
    
    doc2.apply(&b2).unwrap();
    assert_eq!(doc2.participants, Participants::from_entries(vec![
        (1, DocumentParticipant {cursor_pos: 0}),
        (2, DocumentParticipant {cursor_pos: 1}),
    ]));
    
    // check the results converge
    assert_eq!(doc1, doc2);
}

#[test]
fn document_concurrent_delete_and_insert_3() {
    let mut doc = Document::from("ab");
    doc.apply(&Event::Join(Join {id: 1})).unwrap();
    doc.apply(&Event::Join(Join {id: 2})).unwrap();

    let op1 = Operation::Delete(Delete {
        start: 0,
        end: 2,
    });
    let op2 = Operation::Insert(Insert {
        pos: 1,
        content: String::from("c")
    });
    
    let mut a1 = Event::Edit(Edit {
        author: 1,
        operations: vec![op1.clone()]
    });
    let b1 = Event::Edit(Edit {
        author: 2,
        operations: vec![op2.clone()]
    });
    let a2 = a1.clone();
    let mut b2 = b1.clone();
    let mut doc1 = doc.clone();
    let mut doc2 = doc.clone();
    a1.transform(&b1);
    b2.transform(&a2);

    // doc1 (insert then delete)
    
    assert_eq!(doc1.participants, Participants::from_entries(vec![
        (1, DocumentParticipant {cursor_pos: 0}),
        (2, DocumentParticipant {cursor_pos: 0}),
    ]));
    
    doc1.apply(&b1).unwrap();
    assert_eq!(doc1.participants, Participants::from_entries(vec![
        (1, DocumentParticipant {cursor_pos: 0}),
        (2, DocumentParticipant {cursor_pos: 2}),
    ]));

    doc1.apply(&a1).unwrap();
    assert_eq!(doc1.participants, Participants::from_entries(vec![
        (1, DocumentParticipant {cursor_pos: 0}),
        (2, DocumentParticipant {cursor_pos: 1}),
    ]));

    // doc2 (delete then insert)
    
    assert_eq!(doc2.participants, Participants::from_entries(vec![
        (1, DocumentParticipant {cursor_pos: 0}),
        (2, DocumentParticipant {cursor_pos: 0}),
    ]));
            
    doc2.apply(&a2).unwrap();
    assert_eq!(doc2.participants, Participants::from_entries(vec![
        (1, DocumentParticipant {cursor_pos: 0}),
        (2, DocumentParticipant {cursor_pos: 0}),
    ]));
    
    doc2.apply(&b2).unwrap();
    assert_eq!(doc2.participants, Participants::from_entries(vec![
        (1, DocumentParticipant {cursor_pos: 0}),
        (2, DocumentParticipant {cursor_pos: 1}),
    ]));
    
    // check the results converge
    assert_eq!(doc1, doc2);
}


// The current transform splits a delete that straddles a concurrent
// insert into the part after the insert, followed by the part before it.

#[test]
fn transform_delete_insert_same_start_position_split() {
    let mut msg = Edit { author: 1, operations: vec![Operation::Delete(Delete { start: 2, end: 4 })] };
    msg.transform(&Edit {
        author: 2,
        operations: vec![Operation::Insert(Insert { pos: 2, content: String::from("cd") })],
    });
    assert_eq!(
        msg.operations,
        vec![Operation::Delete(Delete { start: 4, end: 6 }), Operation::Delete(Delete { start: 2, end: 2 })]
    );
}

#[test]
fn transform_delete_insert_overlapping_end_split() {
    let mut msg = Edit { author: 1, operations: vec![Operation::Delete(Delete { start: 0, end: 4 })] };
    msg.transform(&Edit {
        author: 2,
        operations: vec![Operation::Insert(Insert { pos: 2, content: String::from("abcd") })],
    });
    assert_eq!(
        msg.operations,
        vec![Operation::Delete(Delete { start: 6, end: 8 }), Operation::Delete(Delete { start: 0, end: 2 })]
    );
}

#[test]
fn transform_delete_insert_superset_split() {
    let mut msg = Edit { author: 1, operations: vec![Operation::Delete(Delete { start: 0, end: 17 })] };
    msg.transform(&Edit {
        author: 2,
        operations: vec![Operation::Insert(Insert { pos: 5, content: String::from("12345") })],
    });
    assert_eq!(
        msg.operations,
        vec![Operation::Delete(Delete { start: 10, end: 22 }), Operation::Delete(Delete { start: 0, end: 5 })]
    );
}
