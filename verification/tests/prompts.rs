use sdmorph::prompts::PromptChunks;
use sdmorph::prompts::join_chunks;

#[test]
fn test_prompt_chunks_diff_by() {
    let chunks1 = PromptChunks {
        chunks: vec!["a".to_string(), "b".to_string(), "c".to_string()],
    };
    let chunks2 = PromptChunks {
        chunks: vec!["b".to_string(), "c".to_string(), "d".to_string()],
    };
    let diff = chunks1.diff_by(&chunks2);
    assert_eq!(diff, vec!["a".to_string()]);
}

#[test]
fn test_prompt_chunks_common() {
    let chunks1 = PromptChunks {
        chunks: vec!["a".to_string(), "b".to_string(), "c".to_string()],
    };
    let chunks2 = PromptChunks {
        chunks: vec!["b".to_string(), "c".to_string(), "d".to_string()],
    };
    let common = chunks1.common(&chunks2);
    assert_eq!(common, vec!["b".to_string(), "c".to_string()]);
}

#[test]
fn test_join_str() {
    let chunks = vec!["a".to_string(), "b".to_string(), "c".to_string()];
    let joined = join_chunks(&chunks);
    assert_eq!(joined, "a,b,c");
}

#[test]
fn test_join_empty_and_single() {
    let none: Vec<String> = Vec::new();
    assert_eq!(join_chunks(&none), "");
    let one = vec!["solo".to_string()];
    assert_eq!(join_chunks(&one), "solo");
}

#[test]
fn test_diff_and_common_keep_duplicates() {
    let chunks1 = PromptChunks {
        chunks: vec![
            "a".to_string(),
            "a".to_string(),
            "b".to_string(),
            "b".to_string(),
        ],
    };
    let chunks2 = PromptChunks {
        chunks: vec!["b".to_string()],
    };
    assert_eq!(
        chunks1.diff_by(&chunks2),
        vec!["a".to_string(), "a".to_string()]
    );
    assert_eq!(
        chunks1.common(&chunks2),
        vec!["b".to_string(), "b".to_string()]
    );
}

#[test]
fn test_common_and_diff_partition_in_order() {
    let a = PromptChunks {
        chunks: vec![
            "x".to_string(),
            "y".to_string(),
            "z".to_string(),
            "y".to_string(),
        ],
    };
    let b = PromptChunks {
        chunks: vec!["y".to_string(), "q".to_string()],
    };
    let common = a.common(&b);
    let diff = a.diff_by(&b);
    assert_eq!(common.len() + diff.len(), a.chunks.len());
    // merging the two back by original positions restores the operand
    let mut merged = Vec::new();
    let mut ci = 0;
    let mut di = 0;
    for chunk in &a.chunks {
        if b.chunks.contains(chunk) {
            assert_eq!(&common[ci], chunk);
            merged.push(common[ci].clone());
            ci += 1;
        } else {
            assert_eq!(&diff[di], chunk);
            merged.push(diff[di].clone());
            di += 1;
        }
    }
    assert_eq!(merged, a.chunks);
}

#[test]
fn test_common_commutative_as_sets() {
    let a = PromptChunks {
        chunks: vec!["a".to_string(), "b".to_string(), "c".to_string()],
    };
    let b = PromptChunks {
        chunks: vec!["c".to_string(), "a".to_string()],
    };
    let ab = a.common(&b);
    let ba = b.common(&a);
    for chunk in &ab {
        assert!(ba.contains(chunk));
    }
    for chunk in &ba {
        assert!(ab.contains(chunk));
    }
    // the orders differ here, only the value sets agree
    assert_eq!(ab, vec!["a".to_string(), "c".to_string()]);
    assert_eq!(ba, vec!["c".to_string(), "a".to_string()]);
}
